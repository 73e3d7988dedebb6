//! What a poll does in each tree: which processes it comes to, and what it
//! keeps of what it sees.
use vstd::prelude::*;

use super::affinity::AffinityResult;
use super::poll::{
    new_children, omission, ChildrenOutcome, PollEvent, PollPhaseView, PollView, SupervisorView,
};
use super::procfs::{IdentityView, ProcessIdentity};
use super::types::{SupervisorWarningView, MAX_PROCESSES_PER_TREE, MAX_SUPERVISOR_WARNINGS};

verus! {

/// A process was brought back to its CPUs with one of the outcomes of a poll.
pub open spec fn enforced_at(
    start: PollView,
    events: Seq<PollEvent>,
    n: int,
    process: ProcessIdentity,
) -> bool {
    &&& 0 <= n < events.len()
    &&& start.after(events.take(n)).phase == (PollPhaseView::Enforce { process })
    &&& events[n] is Enforced
}

/// A process was brought back to its CPUs in the course of a poll.
pub open spec fn enforced(
    start: PollView,
    events: Seq<PollEvent>,
    process: ProcessIdentity,
) -> bool {
    exists|n: int| enforced_at(start, events, n, process)
}

/// Every process that is known of the tree is dealt with, is being dealt with
/// or waits for it.
pub open spec fn covered(start: PollView, events: Seq<PollEvent>) -> bool {
    let state = start.after(events);
    match state.phase {
        PollPhaseView::Enforce { process } => {
            forall|p: ProcessIdentity| #[trigger]
                state.known.contains(p) ==> state.queue.contains(p) || p == process || enforced(
                    start,
                    events,
                    p,
                )
        },
        PollPhaseView::List { process } => {
            forall|p: ProcessIdentity| #[trigger]
                state.known.contains(p) ==> state.queue.contains(p) || enforced(start, events, p)
        },
        _ => true,
    }
}

proof fn lemma_enforced_stays(
    start: PollView,
    events: Seq<PollEvent>,
    event: PollEvent,
    process: ProcessIdentity,
)
    requires
        enforced(start, events, process),
    ensures
        enforced(start, events.push(event), process),
{
    let n = choose|n: int| enforced_at(start, events, n, process);
    assert(events.push(event).take(n) =~= events.take(n));
    assert(enforced_at(start, events.push(event), n, process));
}

proof fn lemma_covered(start: PollView, events: Seq<PollEvent>)
    requires
        start.phase is Reap || start.phase is Root || start.phase is Finished,
    ensures
        covered(start, events),
    decreases events.len(),
{
    if events.len() > 0 {
        let before = events.drop_last();
        let event = events.last();
        let old_state = start.after(before);
        let state = start.after(events);
        lemma_covered(start, before);
        assert(before.push(event) =~= events);
        assert forall|p: ProcessIdentity| enforced(start, before, p) implies #[trigger] enforced(
            start,
            events,
            p,
        ) by {
            lemma_enforced_stays(start, before, event, p);
        }
        match (old_state.phase, event) {
            (PollPhaseView::Enforce { process }, PollEvent::Enforced(_)) => {
                assert(events.take(before.len() as int) =~= before);
                assert(enforced_at(start, events, before.len() as int, process));
                assert(enforced(start, events, process));
            },
            (PollPhaseView::List { process }, PollEvent::Children(outcome)) => {
                lemma_next_covers(start, before, event, process, outcome);
            },
            (PollPhaseView::Root, PollEvent::Identity(seen)) => {
                let tree = old_state.supervisor.trees[0];
                if state.phase is Enforce {
                    assert(state.known =~= seq![tree.root]);
                    assert(state.known[0] == tree.root);
                }
            },
            _ => {},
        }
    }
}

proof fn lemma_next_covers(
    start: PollView,
    before: Seq<PollEvent>,
    event: PollEvent,
    process: ProcessIdentity,
    outcome: ChildrenOutcome,
)
    requires
        start.after(before).phase == (PollPhaseView::List { process }),
        event == PollEvent::Children(outcome),
        covered(start, before),
    ensures
        covered(start, before.push(event)),
        !(start.after(before.push(event)).phase is List),
{
    let events = before.push(event);
    let old_state = start.after(before);
    let state = start.after(events);
    assert(events.drop_last() =~= before);
    assert(state == old_state.with_children(process, outcome));
    let found = match outcome {
        ChildrenOutcome::Found(children) => new_children(
            children@,
            old_state.known,
        ).0,
        _ => Seq::empty(),
    };
    let queue = old_state.queue + found;
    let known = old_state.known + found;
    if queue.len() > 0 {
        assert(state.queue =~= queue.drop_first());
        assert(state.known =~= known);
        assert(state.phase == (PollPhaseView::Enforce { process: queue[0] }));
        assert forall|p: ProcessIdentity| #[trigger] state.known.contains(p) implies
            state.queue.contains(p) || p == queue[0] || enforced(start, events, p) by {
            let i = choose|i: int| 0 <= i < known.len() && known[i] == p;
            if i < old_state.known.len() {
                assert(old_state.known.contains(p));
                if old_state.queue.contains(p) {
                    let j = choose|j: int|
                        0 <= j < old_state.queue.len() && old_state.queue[j] == p;
                    assert(queue[j] == p);
                    if j > 0 {
                        assert(queue.drop_first()[j - 1] == p);
                    }
                } else {
                    lemma_enforced_stays(start, before, event, p);
                }
            } else {
                let j = i - old_state.known.len() + old_state.queue.len();
                assert(queue[j] == p);
                if j > 0 {
                    assert(queue.drop_first()[j - 1] == p);
                }
            }
        }
    } else {
        assert(old_state.queue.len() == 0 && found.len() == 0);
        assert(state.phase is Root || state.phase is Finished);
    }
}

/// A poll leaves a tree whose root is still there only when it has brought
/// every process that it knows of in the tree back to its CPUs.
pub proof fn trees_are_walked_to_the_end(
    supervisor: SupervisorView,
    events: Seq<PollEvent>,
    event: PollEvent,
    process: ProcessIdentity,
)
    requires
        PollView::start(supervisor).after(events).phase is List || PollView::start(
            supervisor,
        ).after(events).phase is Enforce,
        PollView::start(supervisor).after(events.push(event)).phase is Root || PollView::start(
            supervisor,
        ).after(events.push(event)).phase is Finished,
        PollView::start(supervisor).after(events).known.contains(process),
    ensures
        enforced(PollView::start(supervisor), events, process),
{
    let start = PollView::start(supervisor);
    let state = start.after(events);
    lemma_covered(start, events);
    assert(events.push(event).drop_last() =~= events);
    if state.phase is List {
        if state.queue.contains(process) {
            let i = choose|i: int| 0 <= i < state.queue.len() && state.queue[i] == process;
            assert(state.queue.len() > 0);
        }
    }
}

proof fn lemma_new_children(
    children: Seq<ProcessIdentity>,
    known: Seq<ProcessIdentity>,
    child: ProcessIdentity,
)
    requires
        children.contains(child),
    ensures
        (known + new_children(children, known).0).contains(child) || new_children(children, known).1,
        new_children(children, known).1 ==> (known + new_children(children, known).0).len()
            >= MAX_PROCESSES_PER_TREE,
    decreases children.len(),
{
    let rest = children.drop_first();
    let i = choose|i: int| 0 <= i < children.len() && children[i] == child;
    if known.contains(child) {
        let j = choose|j: int| 0 <= j < known.len() && known[j] == child;
        assert((known + new_children(children, known).0)[j] == child);
    }
    lemma_more_children_are_too_many(children, known);
    if i > 0 {
        assert(rest[i - 1] == child);
        if known.contains(children[0]) {
            lemma_new_children(rest, known, child);
        } else if known.len() < MAX_PROCESSES_PER_TREE {
            let more = known.push(children[0]);
            lemma_new_children(rest, more, child);
            assert(more + new_children(rest, more).0 =~= known + new_children(children, known).0);
        }
    } else if !known.contains(child) && known.len() < MAX_PROCESSES_PER_TREE {
        assert((known + new_children(children, known).0)[known.len() as int] == child);
    }
}

proof fn lemma_more_children_are_too_many(
    children: Seq<ProcessIdentity>,
    known: Seq<ProcessIdentity>,
)
    ensures
        new_children(children, known).1 ==> (known + new_children(children, known).0).len()
            >= MAX_PROCESSES_PER_TREE,
    decreases children.len(),
{
    if children.len() > 0 {
        let rest = children.drop_first();
        if known.contains(children[0]) {
            lemma_more_children_are_too_many(rest, known);
        } else if known.len() < MAX_PROCESSES_PER_TREE {
            lemma_more_children_are_too_many(rest, known.push(children[0]));
        }
    }
}

/// Every child that is listed of a process is known from then on, and the walk
/// goes on where it is new; unless the tree has as many processes as are looked
/// at, which is warned of.
pub proof fn listed_children_are_known(
    state: PollView,
    process: ProcessIdentity,
    children: Vec<ProcessIdentity>,
    child: ProcessIdentity,
)
    requires
        state.phase == (PollPhaseView::List { process }),
        children@.contains(child),
        !state.known.contains(child),
        state.known.len() < MAX_PROCESSES_PER_TREE,
    ensures
        ({
            let event = PollEvent::Children(ChildrenOutcome::Found(children));
            let next = state.next(event);
            &&& next.phase is Enforce
            &&& next.known.contains(child) || (next.known.len() >= MAX_PROCESSES_PER_TREE
                && next.supervisor == state.supervisor.warned(
                super::poll::size_warning(state.supervisor.trees[0]),
            ))
        }),
{
    let found = new_children(children@, state.known);
    lemma_new_children(children@, state.known, child);
    if found.0.len() == 0 {
        assert(state.known + found.0 =~= state.known);
    }
}

/// What is seen in the place of a root decides about its tree. The tree is
/// walked, from its root, where the root is there; it stays, with a warning,
/// where nothing could be seen; and it goes, counted as completed, where the
/// root is gone or another process has its number.
pub proof fn roots_decide_about_their_trees(state: PollView, event: PollEvent)
    requires
        state.well_formed(),
        state.phase is Root,
        event is Identity,
    ensures
        ({
            let tree = state.supervisor.trees[0];
            let next = state.next(event);
            match event->Identity_0@ {
                IdentityView::Found { identity, .. } if identity == tree.root => {
                    &&& next.phase == (PollPhaseView::Enforce { process: tree.root })
                    &&& next.known == seq![tree.root]
                    &&& next.supervisor == state.supervisor
                    &&& next.retained == state.retained
                },
                IdentityView::Failed(_) => {
                    &&& next.supervisor.report.completed_roots
                        == state.supervisor.report.completed_roots
                    &&& next.phase is Root ==> next.retained == state.retained.push(tree)
                    &&& next.phase is Finished ==> next.supervisor.trees == state.retained.push(
                        tree,
                    )
                    &&& next.phase is Root || next.phase is Finished
                },
                _ => {
                    &&& state.supervisor.report.completed_roots < usize::MAX
                        ==> next.supervisor.report.completed_roots
                        == state.supervisor.report.completed_roots + 1
                    &&& next.phase is Root ==> next.retained == state.retained
                    &&& next.phase is Finished ==> next.supervisor.trees == state.retained
                    &&& next.phase is Root || next.phase is Finished
                    &&& next.supervisor.report.warnings == state.supervisor.report.warnings
                },
            }
        }),
{
}

/// A child that was reaped is forgotten, one that runs on is kept, and the next
/// one follows.
pub proof fn reaped_children_are_forgotten(state: PollView, at: int, gone: bool, i: int)
    requires
        state.well_formed(),
        state.phase == (PollPhaseView::Reap { at }),
        0 <= i < state.supervisor.child_pids.len(),
    ensures
        ({
            let pids = state.supervisor.child_pids;
            let next = state.next(PollEvent::Reaped(gone));
            let left = next.supervisor.child_pids;
            let behind = at + 1 < pids.len();
            &&& gone ==> left.len() == pids.len() - 1
            &&& !gone ==> left.len() == pids.len() && left[i] == pids[i]
            &&& gone && i < at ==> left[i] == pids[i]
            &&& gone && i > at ==> left[i - 1] == pids[i]
            &&& behind ==> (next.phase matches PollPhaseView::Reap { at: follows }
                && left[follows] == pids[at + 1])
            &&& !behind ==> next.phase is Root
            &&& next.supervisor.trees == state.supervisor.trees
            &&& next.supervisor.report == state.supervisor.report
        }),
{
}

/// The threads that were brought back are counted, to the last one that can be
/// counted, and nothing else is.
pub proof fn updates_are_counted(state: PollView, event: PollEvent)
    ensures
        ({
            let before = state.supervisor.report.affinity_updates;
            let after = state.next(event).supervisor.report.affinity_updates;
            match (state.phase, event) {
                (
                    PollPhaseView::Enforce { .. },
                    PollEvent::Enforced(AffinityResult::Updated(count)),
                ) => if before + count <= u64::MAX {
                    after == before + count
                } else {
                    after == u64::MAX
                },
                _ => after == before,
            }
        }),
        state.next(event).supervisor.report.polls == state.supervisor.report.polls,
{
}

/// A process is first brought back to its CPUs, and then its children are
/// listed; where that failed for the whole of supervision, the poll is over.
pub proof fn processes_are_enforced_and_listed(state: PollView, event: PollEvent, process: ProcessIdentity)
    requires
        state.phase == (PollPhaseView::Enforce { process }),
    ensures
        event is Enforced ==> state.next(event).phase == (PollPhaseView::List { process }),
        event is EnforcementFailed ==> state.next(event).phase is Failed,
        !(event is Enforced) && !(event is EnforcementFailed) ==> state.next(event) == state,
        event is Enforced ==> state.next(event).queue == state.queue && state.next(event).known
            == state.known,
{
}

/// A poll is counted where there is a tree to look at, and begins with the
/// children to reap, where there are any.
pub proof fn polls_are_counted(supervisor: SupervisorView)
    ensures
        ({
            let start = PollView::start(supervisor);
            &&& start.supervisor.trees == supervisor.trees
            &&& start.supervisor.child_pids == supervisor.child_pids
            &&& supervisor.trees.len() == 0 ==> start.phase is Finished
                && start.supervisor.report.polls == supervisor.report.polls
            &&& supervisor.trees.len() > 0 && supervisor.report.polls < u64::MAX
                ==> start.supervisor.report.polls == supervisor.report.polls + 1
            &&& supervisor.trees.len() > 0 ==> if supervisor.child_pids.len() > 0 {
                start.phase == (PollPhaseView::Reap { at: 0 })
            } else {
                start.phase is Root
            }
        }),
{
}

/// A new warning is added to the report as long as there is room for it; then
/// it is noted once that further ones are omitted, and none is added any more.
/// Nothing else changes.
pub proof fn new_warnings_are_reported(
    supervisor: SupervisorView,
    warning: SupervisorWarningView,
)
    ensures
        ({
            let before = supervisor.report.warnings;
            let after = supervisor.warned(warning);
            let new = !supervisor.warnings_truncated && !supervisor.warning_keys.contains(warning);
            &&& new && before.len() < MAX_SUPERVISOR_WARNINGS ==> after.report.warnings
                == before.push(warning) && !after.warnings_truncated
            &&& new && before.len() >= MAX_SUPERVISOR_WARNINGS ==> after.report.warnings
                == before.push(omission()) && after.warnings_truncated
            &&& !new ==> after.report.warnings == before
            &&& after.trees == supervisor.trees
            &&& after.child_pids == supervisor.child_pids
            &&& after.report.completed_roots == supervisor.report.completed_roots
            &&& after.report.affinity_updates == supervisor.report.affinity_updates
            &&& after.report.tracked_roots == supervisor.report.tracked_roots
        }),
{
}

} // verus!
