//! One pass over the process trees of the launched applications.
//!
//! A [`Poll`] decides and its caller acts. In each phase the caller does what
//! the phase asks for and hands the outcome to [`Poll::step`], until the phase
//! is `Finished` or `Failed`.
use vstd::prelude::*;
use vstd::string::StringExecFns;

use super::affinity::AffinityResult;
use super::procfs::{IdentityOutcome, IdentityView, ProcessIdentity};
use super::types::{
    SupervisionReport, SupervisionView, SupervisorError, SupervisorErrorView, SupervisorWarning,
    SupervisorWarningView, MAX_PROCESSES_PER_TREE, MAX_SUPERVISOR_WARNINGS,
};
use crate::order::copy_numbers;
use crate::text::{decimal, decimal_text, group_views, same_text, views};

verus! {

/// An application's process tree.
#[derive(Debug, PartialEq, Eq)]
pub struct ManagedTree {
    pub desktop_id: String,
    pub root: ProcessIdentity,
    /// The CPUs on which the tree belongs.
    pub cpus: Vec<u32>,
}

/// A tree by its contents.
pub struct TreeView {
    pub desktop_id: Seq<char>,
    pub root: ProcessIdentity,
    pub cpus: Seq<u32>,
}

impl View for ManagedTree {
    type V = TreeView;

    open spec fn view(&self) -> TreeView {
        TreeView { desktop_id: self.desktop_id@, root: self.root, cpus: self.cpus@ }
    }
}

/// What is supervised, and what was found so far.
#[derive(Debug, PartialEq, Eq)]
pub struct Supervisor {
    pub trees: Vec<ManagedTree>,
    /// Processes that were started by this one and may have to be reaped.
    pub child_pids: Vec<u32>,
    pub report: SupervisionReport,
    /// The warnings that were given, each once.
    pub warning_keys: Vec<SupervisorWarning>,
    /// Whether further warnings are omitted.
    pub warnings_truncated: bool,
}

/// A supervisor by its contents.
pub struct SupervisorView {
    pub trees: Seq<TreeView>,
    pub child_pids: Seq<u32>,
    pub report: SupervisionView,
    pub warning_keys: Seq<SupervisorWarningView>,
    pub warnings_truncated: bool,
}

impl View for Supervisor {
    type V = SupervisorView;

    open spec fn view(&self) -> SupervisorView {
        SupervisorView {
            trees: views(self.trees@),
            child_pids: self.child_pids@,
            report: self.report@,
            warning_keys: views(self.warning_keys@),
            warnings_truncated: self.warnings_truncated,
        }
    }
}

/// The note that further warnings are omitted.
pub open spec fn omission() -> SupervisorWarningView {
    SupervisorWarningView {
        desktop_id: "supervisor"@,
        pid: None,
        reason: "additional warnings omitted after the "@ + decimal(MAX_SUPERVISOR_WARNINGS as nat)
            + "-warning safety bound"@,
    }
}

/// The note that further warnings are omitted.
pub fn omission_warning() -> (out: SupervisorWarning)
    ensures
        out@ == omission(),
{
    SupervisorWarning {
        desktop_id: "supervisor".to_owned(),
        pid: None,
        reason: "additional warnings omitted after the ".to_owned().concat(
            decimal_text(MAX_SUPERVISOR_WARNINGS as u64).as_str(),
        ).concat("-warning safety bound"),
    }
}

impl SupervisorView {
    pub open spec fn with_warning(self, warning: SupervisorWarningView) -> SupervisorView {
        SupervisorView {
            report: SupervisionView { warnings: self.report.warnings.push(warning), ..self.report },
            ..self
        }
    }

    /// The supervisor after a warning. One that was given before changes
    /// nothing, and none does after the note that further ones are omitted.
    pub open spec fn warned(self, warning: SupervisorWarningView) -> SupervisorView {
        if self.warnings_truncated || self.warning_keys.contains(warning) {
            self
        } else {
            let noted = SupervisorView { warning_keys: self.warning_keys.push(warning), ..self };
            if self.report.warnings.len() < MAX_SUPERVISOR_WARNINGS {
                noted.with_warning(warning)
            } else {
                SupervisorView { warnings_truncated: true, ..noted }.with_warning(omission())
            }
        }
    }

    /// There are no more warnings than are kept, besides the note that further
    /// ones are omitted.
    pub open spec fn bounded(self) -> bool {
        if self.warnings_truncated {
            self.report.warnings.len() == MAX_SUPERVISOR_WARNINGS + 1
        } else {
            self.report.warnings.len() <= MAX_SUPERVISOR_WARNINGS
        }
    }

    pub open spec fn without_first_tree(self) -> SupervisorView {
        SupervisorView { trees: self.trees.drop_first(), ..self }
    }

    /// The supervisor when the root of a tree is gone.
    pub open spec fn with_completed(self) -> SupervisorView {
        SupervisorView {
            report: SupervisionView {
                completed_roots: if self.report.completed_roots == usize::MAX {
                    usize::MAX
                } else {
                    (self.report.completed_roots + 1) as usize
                },
                ..self.report
            },
            ..self
        }
    }

    /// The supervisor when some threads were changed.
    pub open spec fn with_updates(self, count: u64) -> SupervisorView {
        SupervisorView {
            report: SupervisionView {
                affinity_updates: if self.report.affinity_updates + count > u64::MAX {
                    u64::MAX
                } else {
                    (self.report.affinity_updates + count) as u64
                },
                ..self.report
            },
            ..self
        }
    }
}

fn same_warning(a: &SupervisorWarning, b: &SupervisorWarning) -> (same: bool)
    ensures
        same == (a@ == b@),
{
    a.pid == b.pid && same_text(a.desktop_id.as_str(), b.desktop_id.as_str()) && same_text(
        a.reason.as_str(),
        b.reason.as_str(),
    )
}

pub(crate) fn was_given(given: &Vec<SupervisorWarning>, warning: &SupervisorWarning) -> (found: bool)
    ensures
        found == views(given@).contains(warning@),
{
    let mut i: usize = 0;
    while i < given.len()
        invariant
            i <= given@.len(),
            forall|k: int| 0 <= k < i ==> (#[trigger] given@[k])@ != warning@,
        decreases given.len() - i,
    {
        if same_warning(&given[i], warning) {
            assert(views(given@)[i as int] == warning@);
            return true;
        }
        i += 1;
    }
    proof {
        if views(given@).contains(warning@) {
            let k = choose|k: int| 0 <= k < views(given@).len() && views(given@)[k] == warning@;
            assert(given@[k]@ == warning@);
        }
    }
    false
}

impl Supervisor {
    /// Give a warning.
    pub fn warn(&mut self, warning: SupervisorWarning)
        ensures
            final(self)@ == old(self)@.warned(warning@),
    {
        broadcast use group_views;

        if self.warnings_truncated || was_given(&self.warning_keys, &warning) {
            return;
        }
        let ghost keys = views(self.warning_keys@);
        let ghost before = views(self.report.warnings@);
        assert(before.len() == self.report.warnings@.len());
        self.warning_keys.push(warning.clone());
        assert(views(self.warning_keys@) == keys.push(warning@));
        if self.report.warnings.len() < MAX_SUPERVISOR_WARNINGS {
            self.report.warnings.push(warning);
            assert(views(self.report.warnings@) == before.push(warning@));
        } else {
            self.warnings_truncated = true;
            self.report.warnings.push(omission_warning());
            assert(views(self.report.warnings@) == before.push(omission()));
        }
    }

    /// End supervision because of a signal.
    pub fn terminate(&mut self, signal: &str)
        ensures
            final(self)@ == (SupervisorView {
                report: SupervisionView {
                    termination_signal: Some(signal@),
                    ..old(self)@.report
                },
                ..old(self)@
            }),
    {
        self.report.termination_signal = Some(signal.to_owned());
    }
}

/// What the caller has to do next.
#[derive(Debug, PartialEq, Eq)]
pub enum PollPhase {
    /// Reap the child process at a position, if it has ended.
    Reap { at: usize },
    /// Look at the root of the first tree.
    Root,
    /// Bring the process back to the CPUs of the first tree.
    Enforce { process: ProcessIdentity },
    /// List the children of the process.
    List { process: ProcessIdentity },
    Finished,
    Failed(SupervisorError),
}

/// A phase by its contents.
pub enum PollPhaseView {
    Reap { at: int },
    Root,
    Enforce { process: ProcessIdentity },
    List { process: ProcessIdentity },
    Finished,
    Failed(SupervisorErrorView),
}

impl View for PollPhase {
    type V = PollPhaseView;

    open spec fn view(&self) -> PollPhaseView {
        match self {
            PollPhase::Reap { at } => PollPhaseView::Reap { at: *at as int },
            PollPhase::Root => PollPhaseView::Root,
            PollPhase::Enforce { process } => PollPhaseView::Enforce { process: *process },
            PollPhase::List { process } => PollPhaseView::List { process: *process },
            PollPhase::Finished => PollPhaseView::Finished,
            PollPhase::Failed(e) => PollPhaseView::Failed(e@),
        }
    }
}

/// What listing the children of a process gave.
#[derive(Debug, PartialEq, Eq)]
pub enum ChildrenOutcome {
    Found(Vec<ProcessIdentity>),
    /// The process has gone meanwhile.
    Vanished,
    /// The children could not be listed; the message.
    Failed(String),
}

/// What came of the last action.
#[derive(Debug, PartialEq, Eq)]
pub enum PollEvent {
    /// Whether the child process has ended or is none of this process's.
    Reaped(bool),
    Identity(IdentityOutcome),
    Enforced(AffinityResult),
    EnforcementFailed(SupervisorError),
    Children(ChildrenOutcome),
}

/// One pass of a supervisor.
#[derive(Debug, PartialEq, Eq)]
pub struct Poll {
    /// The supervisor; its trees are those that are still to be looked at.
    pub supervisor: Supervisor,
    /// The trees that stay.
    pub retained: Vec<ManagedTree>,
    /// The processes of the first tree that are known.
    pub known: Vec<ProcessIdentity>,
    /// Those of them that are still to be looked at.
    pub queue: Vec<ProcessIdentity>,
    pub phase: PollPhase,
}

/// A pass by its contents.
pub struct PollView {
    pub supervisor: SupervisorView,
    pub retained: Seq<TreeView>,
    pub known: Seq<ProcessIdentity>,
    pub queue: Seq<ProcessIdentity>,
    pub phase: PollPhaseView,
}

impl View for Poll {
    type V = PollView;

    open spec fn view(&self) -> PollView {
        PollView {
            supervisor: self.supervisor@,
            retained: views(self.retained@),
            known: self.known@,
            queue: self.queue@,
            phase: self.phase@,
        }
    }
}

pub open spec fn root_warning(tree: TreeView, message: Seq<char>) -> SupervisorWarningView {
    SupervisorWarningView {
        desktop_id: tree.desktop_id,
        pid: Some(tree.root.pid),
        reason: "could not verify managed root: "@ + message,
    }
}

pub open spec fn children_warning(tree: TreeView, pid: u32, message: Seq<char>) -> SupervisorWarningView {
    SupervisorWarningView {
        desktop_id: tree.desktop_id,
        pid: Some(pid),
        reason: "could not inspect verified descendants: "@ + message,
    }
}

pub open spec fn size_warning(tree: TreeView) -> SupervisorWarningView {
    SupervisorWarningView {
        desktop_id: tree.desktop_id,
        pid: Some(tree.root.pid),
        reason: "managed tree exceeded the safety bound of "@ + decimal(
            MAX_PROCESSES_PER_TREE as nat,
        ) + " processes"@,
    }
}

/// The new ones among some children, up to the number of processes that are
/// looked at in one tree; and whether there were more.
pub open spec fn new_children(children: Seq<ProcessIdentity>, known: Seq<ProcessIdentity>) -> (
    Seq<ProcessIdentity>,
    bool,
)
    decreases children.len(),
{
    if children.len() == 0 {
        (Seq::empty(), false)
    } else if known.contains(children[0]) {
        new_children(children.drop_first(), known)
    } else if known.len() >= MAX_PROCESSES_PER_TREE {
        (Seq::empty(), true)
    } else {
        let rest = new_children(children.drop_first(), known.push(children[0]));
        (seq![children[0]] + rest.0, rest.1)
    }
}

impl PollView {
    /// The beginning of a pass.
    pub open spec fn start(supervisor: SupervisorView) -> PollView {
        let none = PollView {
            supervisor,
            retained: Seq::empty(),
            known: Seq::empty(),
            queue: Seq::empty(),
            phase: PollPhaseView::Finished,
        };
        if supervisor.trees.len() == 0 {
            none
        } else {
            PollView {
                supervisor: SupervisorView {
                    report: SupervisionView {
                        polls: if supervisor.report.polls == u64::MAX {
                            u64::MAX
                        } else {
                            (supervisor.report.polls + 1) as u64
                        },
                        ..supervisor.report
                    },
                    ..supervisor
                },
                phase: if supervisor.child_pids.len() == 0 {
                    PollPhaseView::Root
                } else {
                    PollPhaseView::Reap { at: 0 }
                },
                ..none
            }
        }
    }

    pub open spec fn in_phase(self, phase: PollPhaseView) -> PollView {
        PollView { phase, ..self }
    }

    /// The pass when it is done with the first tree: the next one follows, or
    /// the trees that stay are the supervisor's.
    pub open spec fn without_tree(self) -> PollView {
        let rest = self.supervisor.without_first_tree();
        let bare = PollView { known: Seq::empty(), queue: Seq::empty(), ..self };
        if rest.trees.len() == 0 {
            PollView {
                supervisor: SupervisorView { trees: self.retained, ..rest },
                retained: Seq::empty(),
                phase: PollPhaseView::Finished,
                ..bare
            }
        } else {
            PollView { supervisor: rest, phase: PollPhaseView::Root, ..bare }
        }
    }

    /// The pass when it is done with the first tree, which stays.
    pub open spec fn with_tree_retained(self) -> PollView {
        PollView {
            retained: self.retained.push(self.supervisor.trees[0]),
            ..self
        }.without_tree()
    }

    /// The pass when it is known whether a child was reaped.
    pub open spec fn with_reaped(self, at: int, gone: bool) -> PollView {
        let pids = self.supervisor.child_pids;
        let left = if gone && 0 <= at < pids.len() {
            pids.remove(at)
        } else {
            pids
        };
        let next = if gone {
            at
        } else {
            at + 1
        };
        PollView {
            supervisor: SupervisorView { child_pids: left, ..self.supervisor },
            phase: if next < left.len() {
                PollPhaseView::Reap { at: next }
            } else {
                PollPhaseView::Root
            },
            ..self
        }
    }

    /// The pass when it is known what there is in the place of a root.
    pub open spec fn with_root(self, seen: IdentityView) -> PollView {
        let tree = self.supervisor.trees[0];
        if seen is Failed {
            PollView {
                supervisor: self.supervisor.warned(root_warning(tree, seen->Failed_0)),
                ..self
            }.with_tree_retained()
        } else if seen.is(tree.root) {
            PollView {
                known: seq![tree.root],
                queue: Seq::empty(),
                phase: PollPhaseView::Enforce { process: tree.root },
                ..self
            }
        } else {
            PollView { supervisor: self.supervisor.with_completed(), ..self }.without_tree()
        }
    }

    /// The pass when it goes on with the next process of the tree.
    pub open spec fn with_next_process(self) -> PollView {
        if self.queue.len() == 0 {
            self.with_tree_retained()
        } else {
            PollView {
                queue: self.queue.drop_first(),
                phase: PollPhaseView::Enforce { process: self.queue[0] },
                ..self
            }
        }
    }

    /// The pass when the children of a process are known.
    pub open spec fn with_children(self, process: ProcessIdentity, outcome: ChildrenOutcome) -> PollView {
        let tree = self.supervisor.trees[0];
        match outcome {
            ChildrenOutcome::Vanished => self.with_next_process(),
            ChildrenOutcome::Failed(message) => PollView {
                supervisor: self.supervisor.warned(
                    children_warning(tree, process.pid, message@),
                ),
                ..self
            }.with_next_process(),
            ChildrenOutcome::Found(children) => {
                let found = new_children(children@, self.known);
                PollView {
                    known: self.known + found.0,
                    queue: self.queue + found.0,
                    supervisor: if found.1 {
                        self.supervisor.warned(size_warning(tree))
                    } else {
                        self.supervisor
                    },
                    ..self
                }.with_next_process()
            },
        }
    }

    /// The pass after an outcome. One that does not answer the phase changes
    /// nothing.
    pub open spec fn next(self, event: PollEvent) -> PollView {
        match (self.phase, event) {
            (PollPhaseView::Reap { at }, PollEvent::Reaped(gone)) => self.with_reaped(at, gone),
            (PollPhaseView::Root, PollEvent::Identity(seen)) => self.with_root(seen@),
            (PollPhaseView::Enforce { process }, PollEvent::Enforced(result)) => PollView {
                supervisor: match result {
                    AffinityResult::Updated(count) => self.supervisor.with_updates(count),
                    _ => self.supervisor,
                },
                phase: PollPhaseView::List { process },
                ..self
            },
            (PollPhaseView::Enforce { process }, PollEvent::EnforcementFailed(e)) => self.in_phase(
                PollPhaseView::Failed(e@),
            ),
            (PollPhaseView::List { process }, PollEvent::Children(outcome)) => self.with_children(
                process,
                outcome,
            ),
            _ => self,
        }
    }

    /// The pass after some outcomes.
    pub open spec fn after(self, events: Seq<PollEvent>) -> PollView
        decreases events.len(),
    {
        if events.len() == 0 {
            self
        } else {
            self.after(events.drop_last()).next(events.last())
        }
    }

    /// Where a tree is looked at, there is one; where a child is to be reaped,
    /// there is one.
    pub open spec fn well_formed(self) -> bool {
        match self.phase {
            PollPhaseView::Reap { at } => 0 <= at < self.supervisor.child_pids.len()
                && self.supervisor.trees.len() > 0,
            PollPhaseView::Root | PollPhaseView::Enforce { .. } | PollPhaseView::List { .. } => {
                self.supervisor.trees.len() > 0
            },
            _ => true,
        }
    }
}

fn is_known(known: &Vec<ProcessIdentity>, process: ProcessIdentity) -> (found: bool)
    ensures
        found == known@.contains(process),
{
    let mut i: usize = 0;
    while i < known.len()
        invariant
            i <= known@.len(),
            forall|k: int| 0 <= k < i ==> known@[k] != process,
        decreases known.len() - i,
    {
        if known[i] == process {
            assert(known@[i as int] == process);
            return true;
        }
        i += 1;
    }
    false
}

/// Add the new ones among some children to those that are known and to those
/// that are still to be looked at.
fn add_new_children(
    children: &Vec<ProcessIdentity>,
    known: &mut Vec<ProcessIdentity>,
    queue: &mut Vec<ProcessIdentity>,
) -> (more: bool)
    ensures
        final(known)@ == old(known)@ + new_children(children@, old(known)@).0,
        final(queue)@ == old(queue)@ + new_children(children@, old(known)@).0,
        more == new_children(children@, old(known)@).1,
{
    let ghost known_before = known@;
    let ghost queue_before = queue@;
    let ghost whole = new_children(children@, known_before);
    let ghost mut added: Seq<ProcessIdentity> = Seq::empty();
    let mut i: usize = 0;
    assert(children@.skip(0) =~= children@);
    assert(known@ =~= known_before + added);
    assert(queue@ =~= queue_before + added);
    assert(whole.0 =~= added + whole.0);
    while i < children.len()
        invariant
            i <= children@.len(),
            known_before == old(known)@,
            queue_before == old(queue)@,
            whole == new_children(children@, known_before),
            known@ == known_before + added,
            queue@ == queue_before + added,
            whole.0 == added + new_children(children@.skip(i as int), known@).0,
            whole.1 == new_children(children@.skip(i as int), known@).1,
        decreases children.len() - i,
    {
        let child = children[i];
        proof {
            assert(children@.skip(i as int)[0] == child);
            assert(children@.skip(i as int).drop_first() =~= children@.skip(i + 1));
        }
        if !is_known(known, child) {
            if known.len() >= MAX_PROCESSES_PER_TREE {
                assert(whole.0 =~= added);
                return true;
            }
            proof {
                let rest = new_children(children@.skip(i + 1), known@.push(child));
                assert(whole.0 =~= added.push(child) + rest.0);
                added = added.push(child);
            }
            known.push(child);
            queue.push(child);
            assert(known@ =~= known_before + added);
            assert(queue@ =~= queue_before + added);
        }
        i += 1;
    }
    assert(whole.0 =~= added);
    false
}

impl Poll {
    /// Begin a pass.
    pub fn begin(supervisor: Supervisor) -> (out: Poll)
        ensures
            out@ == PollView::start(supervisor@),
            out@.well_formed(),
    {
        broadcast use group_views;

        assert(views(supervisor.trees@).len() == supervisor.trees@.len());
        let retained: Vec<ManagedTree> = Vec::new();
        assert(views(retained@) =~= Seq::empty());
        let mut poll = Poll {
            supervisor,
            retained,
            known: Vec::new(),
            queue: Vec::new(),
            phase: PollPhase::Finished,
        };
        if poll.supervisor.trees.len() > 0 {
            if poll.supervisor.report.polls < u64::MAX {
                poll.supervisor.report.polls = poll.supervisor.report.polls + 1;
            }
            poll.phase =
            if poll.supervisor.child_pids.len() == 0 {
                PollPhase::Root
            } else {
                PollPhase::Reap { at: 0 }
            };
        }
        poll
    }

    fn drop_tree(self) -> (out: Poll)
        requires
            self@.supervisor.trees.len() > 0,
        ensures
            out@ == self@.without_tree(),
            out@.well_formed(),
    {
        let Poll { supervisor, retained, known, queue, phase } = self;
        let mut supervisor = supervisor;
        let ghost before = views(supervisor.trees@);
        assert(before.len() == supervisor.trees@.len());
        supervisor.trees.remove(0);
        assert(views(supervisor.trees@) =~= before.drop_first());
        if supervisor.trees.len() == 0 {
            supervisor.trees = retained;
            let none: Vec<ManagedTree> = Vec::new();
            assert(views(none@) =~= Seq::empty());
            Poll {
                supervisor,
                retained: none,
                known: Vec::new(),
                queue: Vec::new(),
                phase: PollPhase::Finished,
            }
        } else {
            Poll {
                supervisor,
                retained,
                known: Vec::new(),
                queue: Vec::new(),
                phase: PollPhase::Root,
            }
        }
    }

    fn retain_tree(self) -> (out: Poll)
        requires
            self@.supervisor.trees.len() > 0,
        ensures
            out@ == self@.with_tree_retained(),
            out@.well_formed(),
    {
        broadcast use group_views;

        let Poll { supervisor, retained, known, queue, phase } = self;
        let tree = &supervisor.trees[0];
        assert(views(supervisor.trees@)[0] == tree@);
        let kept = ManagedTree {
            desktop_id: tree.desktop_id.clone(),
            root: tree.root,
            cpus: copy_numbers(&tree.cpus),
        };
        let ghost before = views(retained@);
        let mut retained = retained;
        retained.push(kept);
        assert(views(retained@) == before.push(kept@));
        Poll { supervisor, retained, known, queue, phase }.drop_tree()
    }

    fn take_reaped(self, at: usize, gone: bool) -> (out: Poll)
        requires
            self@.well_formed(),
            self.phase == (PollPhase::Reap { at }),
        ensures
            out@ == self@.with_reaped(at as int, gone),
            out@.well_formed(),
    {
        let mut poll = self;
        let mut next: usize = at;
        let count: usize = poll.supervisor.child_pids.len();
        assert(at < count);
        if gone {
            poll.supervisor.child_pids.remove(at);
        } else {
            next = at + 1;
        }
        poll.phase =
        if next < poll.supervisor.child_pids.len() {
            PollPhase::Reap { at: next }
        } else {
            PollPhase::Root
        };
        poll
    }

    fn take_root(self, seen: IdentityOutcome) -> (out: Poll)
        requires
            self@.supervisor.trees.len() > 0,
        ensures
            out@ == self@.with_root(seen@),
            out@.well_formed(),
    {
        let mut poll = self;
        assert(views(poll.supervisor.trees@)[0] == poll.supervisor.trees@[0]@);
        let root = poll.supervisor.trees[0].root;
        let same = seen.is_process(root);
        match seen {
            IdentityOutcome::Failed(message) => {
                let warning = SupervisorWarning {
                    desktop_id: poll.supervisor.trees[0].desktop_id.clone(),
                    pid: Some(root.pid),
                    reason: "could not verify managed root: ".to_owned().concat(message.as_str()),
                };
                poll.supervisor.warn(warning);
                return poll.retain_tree();
            },
            _ => {},
        }
        if same {
            let mut known: Vec<ProcessIdentity> = Vec::new();
            known.push(root);
            assert(known@ =~= seq![root]);
            poll.known = known;
            poll.queue = Vec::new();
            poll.phase = PollPhase::Enforce { process: root };
            poll
        } else {
            if poll.supervisor.report.completed_roots < usize::MAX {
                poll.supervisor.report.completed_roots = poll.supervisor.report.completed_roots + 1;
            }
            poll.drop_tree()
        }
    }

    fn next_process(self) -> (out: Poll)
        requires
            self@.supervisor.trees.len() > 0,
        ensures
            out@ == self@.with_next_process(),
            out@.well_formed(),
    {
        if self.queue.len() == 0 {
            return self.retain_tree();
        }
        let mut poll = self;
        let ghost before = poll.queue@;
        let process = poll.queue.remove(0);
        assert(poll.queue@ =~= before.drop_first());
        poll.phase = PollPhase::Enforce { process };
        poll
    }

    fn take_children(self, process: ProcessIdentity, outcome: ChildrenOutcome) -> (out: Poll)
        requires
            self@.supervisor.trees.len() > 0,
        ensures
            out@ == self@.with_children(process, outcome),
            out@.well_formed(),
    {
        let mut poll = self;
        assert(views(poll.supervisor.trees@)[0] == poll.supervisor.trees@[0]@);
        match outcome {
            ChildrenOutcome::Vanished => {},
            ChildrenOutcome::Failed(message) => {
                let warning = SupervisorWarning {
                    desktop_id: poll.supervisor.trees[0].desktop_id.clone(),
                    pid: Some(process.pid),
                    reason: "could not inspect verified descendants: ".to_owned().concat(
                        message.as_str(),
                    ),
                };
                poll.supervisor.warn(warning);
            },
            ChildrenOutcome::Found(children) => {
                let more = add_new_children(&children, &mut poll.known, &mut poll.queue);
                if more {
                    let warning = SupervisorWarning {
                        desktop_id: poll.supervisor.trees[0].desktop_id.clone(),
                        pid: Some(poll.supervisor.trees[0].root.pid),
                        reason: "managed tree exceeded the safety bound of ".to_owned().concat(
                            decimal_text(MAX_PROCESSES_PER_TREE as u64).as_str(),
                        ).concat(" processes"),
                    };
                    poll.supervisor.warn(warning);
                }
            },
        }
        poll.next_process()
    }

    /// The pass after an outcome.
    pub fn step(self, event: PollEvent) -> (out: Poll)
        requires
            self@.well_formed(),
        ensures
            out@ == self@.next(event),
            out@.well_formed(),
    {
        let mut poll = self;
        match (&poll.phase, event) {
            (PollPhase::Reap { at }, PollEvent::Reaped(gone)) => {
                let at: usize = *at;
                poll.take_reaped(at, gone)
            },
            (PollPhase::Root, PollEvent::Identity(seen)) => poll.take_root(seen),
            (PollPhase::Enforce { process }, PollEvent::Enforced(result)) => {
                let process = *process;
                match result {
                    AffinityResult::Updated(count) => {
                        let total: u64 = poll.supervisor.report.affinity_updates;
                        poll.supervisor.report.affinity_updates =
                        if total <= u64::MAX - count {
                            total + count
                        } else {
                            u64::MAX
                        };
                    },
                    _ => {},
                }
                poll.phase = PollPhase::List { process };
                poll
            },
            (PollPhase::Enforce { .. }, PollEvent::EnforcementFailed(e)) => {
                poll.phase = PollPhase::Failed(e);
                poll
            },
            (PollPhase::List { process }, PollEvent::Children(outcome)) => {
                let process = *process;
                poll.take_children(process, outcome)
            },
            _ => poll,
        }
    }
}

} // verus!
