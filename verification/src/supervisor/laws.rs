//! What holds of supervision as a whole.
use vstd::prelude::*;

use super::affinity::{AffinityCheckView, AffinityEvent, AffinityPhaseView};
use super::enroll::{candidates, enrolled, initiated_with, is_enforced, supervision};
use super::poll::{
    new_children, ChildrenOutcome, PollEvent, PollPhaseView, PollView, SupervisorView, TreeView,
};
use super::procfs::{IdentityView, ProcessIdentity};
use super::session::{SessionEvent, SessionView};
use super::types::{
    SupervisionView, SupervisorWarningView, MAX_PROCESSES_PER_TREE, MAX_SUPERVISOR_WARNINGS,
};
use crate::launcher::error::InitiatedView;
use crate::launcher::plan::{LaunchPlanView, PlannedView};

verus! {

/// The number of warnings stays bounded, whatever happens in a poll.
pub proof fn warnings_stay_bounded(start: SupervisorView, events: Seq<PollEvent>)
    requires
        start.bounded(),
    ensures
        PollView::start(start).after(events).supervisor.bounded(),
    decreases events.len(),
{
    if events.len() > 0 {
        warnings_stay_bounded(start, events.drop_last());
    }
}

/// A warning is given once.
pub proof fn warnings_are_given_once(supervisor: SupervisorView, warning: SupervisorWarningView)
    ensures
        supervisor.warned(warning).warned(warning) == supervisor.warned(warning),
{
    let once = supervisor.warned(warning);
    if !supervisor.warnings_truncated && !supervisor.warning_keys.contains(warning) {
        let keys = supervisor.warning_keys;
        assert(once.warning_keys[keys.len() as int] == warning);
        assert(once.warning_keys.contains(warning));
    }
}

proof fn lemma_enrolled_bounded(
    all: Seq<InitiatedView>,
    seen: Seq<IdentityView>,
    cpus: Seq<u32>,
)
    ensures
        enrolled(all, seen, cpus).warnings.len() <= MAX_SUPERVISOR_WARNINGS + 1,
    decreases all.len(),
{
    if all.len() > 0 {
        lemma_enrolled_bounded(all.drop_last(), seen, cpus);
    }
}

/// Supervision begins with a bounded number of warnings.
pub proof fn supervision_begins_bounded(
    plan: LaunchPlanView,
    initiated: Seq<InitiatedView>,
    seen: Seq<IdentityView>,
)
    ensures
        supervision(plan, initiated, seen).bounded(),
{
    lemma_enrolled_bounded(
        candidates(plan.applications, initiated),
        seen,
        plan.efficiency_cpus,
    );
}

/// What holds while a tree is walked: every process is known once, there are
/// not too many, and those that are still to be looked at are other ones than
/// the current.
pub open spec fn walk_is_sound(poll: PollView) -> bool {
    (poll.phase is Enforce || poll.phase is List) ==> {
        let process = current_process(poll.phase);
        &&& poll.known.no_duplicates()
        &&& poll.queue.no_duplicates()
        &&& 0 < poll.known.len() <= MAX_PROCESSES_PER_TREE
        &&& poll.known.contains(process)
        &&& !poll.queue.contains(process)
        &&& forall|p: ProcessIdentity| #[trigger] poll.queue.contains(p) ==> poll.known.contains(p)
    }
}

pub open spec fn current_process(phase: PollPhaseView) -> ProcessIdentity {
    match phase {
        PollPhaseView::Enforce { process } => process,
        PollPhaseView::List { process } => process,
        _ => arbitrary(),
    }
}

proof fn lemma_new_children(children: Seq<ProcessIdentity>, known: Seq<ProcessIdentity>)
    requires
        known.no_duplicates(),
        known.len() <= MAX_PROCESSES_PER_TREE,
    ensures
        ({
            let found = new_children(children, known).0;
            &&& (known + found).no_duplicates()
            &&& (known + found).len() <= MAX_PROCESSES_PER_TREE
            &&& forall|i: int| 0 <= i < found.len() ==> !known.contains(#[trigger] found[i])
            &&& forall|i: int| 0 <= i < found.len() ==> children.contains(#[trigger] found[i])
        }),
    decreases children.len(),
{
    let found = new_children(children, known).0;
    if children.len() == 0 {
        assert(known + found =~= known);
    } else if known.contains(children[0]) {
        lemma_new_children(children.drop_first(), known);
        assert forall|i: int| 0 <= i < found.len() implies children.contains(
            #[trigger] found[i],
        ) by {
            assert(children.drop_first().contains(found[i]));
            let k = choose|k: int|
                0 <= k < children.drop_first().len() && children.drop_first()[k] == found[i];
            assert(children[k + 1] == found[i]);
        }
    } else if known.len() >= MAX_PROCESSES_PER_TREE {
        assert(known + found =~= known);
    } else {
        let first = children[0];
        let more = known.push(first);
        assert(more.no_duplicates()) by {
            assert forall|i: int, j: int| 0 <= i < j < more.len() implies more[i] != more[j] by {
                if j == known.len() {
                    assert(known[i] == more[i]);
                    assert(!known.contains(first));
                } else {
                    assert(known[i] != known[j]);
                }
            }
        }
        lemma_new_children(children.drop_first(), more);
        let rest = new_children(children.drop_first(), more).0;
        assert(known + found =~= more + rest);
        assert forall|i: int| 0 <= i < found.len() implies !known.contains(#[trigger] found[i])
            && children.contains(found[i]) by {
            if i == 0 {
                assert(found[0] == first);
                assert(children[0] == first);
            } else {
                assert(found[i] == rest[i - 1]);
                assert(!more.contains(rest[i - 1]));
                if known.contains(found[i]) {
                    let k = choose|k: int| 0 <= k < known.len() && known[k] == found[i];
                    assert(more[k] == found[i]);
                }
                assert(children.drop_first().contains(rest[i - 1]));
                let k = choose|k: int|
                    0 <= k < children.drop_first().len() && children.drop_first()[k] == rest[i - 1];
                assert(children[k + 1] == found[i]);
            }
        }
    }
}

/// While a tree is walked, each process is looked at at most once, and no more
/// than [`MAX_PROCESSES_PER_TREE`] of them.
pub proof fn walks_are_bounded(start: SupervisorView, events: Seq<PollEvent>)
    ensures
        walk_is_sound(PollView::start(start).after(events)),
    decreases events.len(),
{
    if events.len() > 0 {
        walks_are_bounded(start, events.drop_last());
        lemma_walk_step(PollView::start(start).after(events.drop_last()), events.last());
    }
}

proof fn lemma_walk_step(poll: PollView, event: PollEvent)
    requires
        walk_is_sound(poll),
    ensures
        walk_is_sound(poll.next(event)),
{
    match (poll.phase, event) {
        (PollPhaseView::Root, PollEvent::Identity(seen)) => {
            let root = poll.supervisor.trees[0].root;
            if seen@.is(root) {
                assert(seq![root][0] == root);
                assert(seq![root].contains(root));
            }
        },
        (PollPhaseView::List { process }, PollEvent::Children(outcome)) => {
            match outcome {
                ChildrenOutcome::Found(children) => {
                    lemma_new_children(children@, poll.known);
                    let found = new_children(children@, poll.known).0;
                    lemma_queue_grows(poll, found);
                    let grown = PollView {
                        known: poll.known + found,
                        queue: poll.queue + found,
                        ..poll
                    };
                    lemma_next_process(grown);
                },
                _ => {
                    lemma_next_process(poll);
                },
            }
        },
        _ => {},
    }
}

proof fn lemma_queue_grows(poll: PollView, found: Seq<ProcessIdentity>)
    requires
        poll.phase is List,
        walk_is_sound(poll),
        (poll.known + found).no_duplicates(),
        (poll.known + found).len() <= MAX_PROCESSES_PER_TREE,
        forall|i: int| 0 <= i < found.len() ==> !poll.known.contains(#[trigger] found[i]),
    ensures
        walk_is_sound(PollView { known: poll.known + found, queue: poll.queue + found, ..poll }),
{
    let process = current_process(poll.phase);
    let known = poll.known + found;
    let queue = poll.queue + found;
    let at = choose|at: int| 0 <= at < poll.known.len() && poll.known[at] == process;
    assert(known[at] == process);
    assert forall|p: ProcessIdentity| #[trigger] queue.contains(p) implies known.contains(p) by {
        let k = choose|k: int| 0 <= k < queue.len() && queue[k] == p;
        if k < poll.queue.len() {
            assert(poll.queue[k] == p);
            assert(poll.queue.contains(p));
            let j = choose|j: int| 0 <= j < poll.known.len() && poll.known[j] == p;
            assert(known[j] == p);
        } else {
            assert(known[poll.known.len() + k - poll.queue.len()] == p);
        }
    }
    assert(!queue.contains(process)) by {
        if queue.contains(process) {
            let k = choose|k: int| 0 <= k < queue.len() && queue[k] == process;
            if k < poll.queue.len() {
                assert(poll.queue[k] == process);
                assert(poll.queue.contains(process));
            } else {
                assert(found[k - poll.queue.len()] == process);
            }
        }
    }
    assert(queue.no_duplicates()) by {
        assert forall|i: int, j: int| 0 <= i < j < queue.len() implies queue[i] != queue[j] by {
            if j < poll.queue.len() {
                assert(poll.queue[i] != poll.queue[j]);
            } else if i < poll.queue.len() {
                assert(poll.queue[i] == queue[i]);
                assert(poll.queue.contains(queue[i]));
                assert(!poll.known.contains(found[j - poll.queue.len()]));
            } else {
                assert(known[poll.known.len() + i - poll.queue.len()] != known[poll.known.len() + j
                    - poll.queue.len()]);
            }
        }
    }
}

proof fn lemma_next_process(poll: PollView)
    requires
        poll.phase is List,
        walk_is_sound(poll),
    ensures
        walk_is_sound(poll.with_next_process()),
{
    if poll.queue.len() > 0 {
        let rest = poll.queue.drop_first();
        assert(poll.queue.contains(poll.queue[0]));
        assert forall|p: ProcessIdentity| #[trigger] rest.contains(p) implies poll.known.contains(
            p,
        ) by {
            let k = choose|k: int| 0 <= k < rest.len() && rest[k] == p;
            assert(poll.queue[k + 1] == p);
            assert(poll.queue.contains(p));
        }
        assert(!rest.contains(poll.queue[0])) by {
            if rest.contains(poll.queue[0]) {
                let k = choose|k: int| 0 <= k < rest.len() && rest[k] == poll.queue[0];
                assert(poll.queue[k + 1] == poll.queue[0]);
            }
        }
        assert(rest.no_duplicates()) by {
            assert forall|i: int, j: int| 0 <= i < j < rest.len() implies rest[i] != rest[j] by {
                assert(poll.queue[i + 1] != poll.queue[j + 1]);
            }
        }
    }
}

/// A process was confirmed in this poll: as the root of a tree, or as a child
/// of a process that was looked at.
pub open spec fn was_confirmed(events: Seq<PollEvent>, process: ProcessIdentity) -> bool {
    exists|i: int|
        0 <= i < events.len() && match #[trigger] events[i] {
            PollEvent::Identity(seen) => seen@.is(process),
            PollEvent::Children(ChildrenOutcome::Found(children)) => children@.contains(process),
            _ => false,
        }
}

proof fn lemma_confirmed_later(events: Seq<PollEvent>, process: ProcessIdentity)
    requires
        events.len() > 0,
        was_confirmed(events.drop_last(), process),
    ensures
        was_confirmed(events, process),
{
    let front = events.drop_last();
    let i = choose|i: int|
        0 <= i < front.len() && match #[trigger] front[i] {
            PollEvent::Identity(seen) => seen@.is(process),
            PollEvent::Children(ChildrenOutcome::Found(children)) => children@.contains(process),
            _ => false,
        };
    assert(events[i] == front[i]);
}

proof fn lemma_confirmed(start: SupervisorView, events: Seq<PollEvent>)
    ensures
        ({
            let poll = PollView::start(start).after(events);
            &&& forall|p: ProcessIdentity| #[trigger]
                poll.queue.contains(p) ==> was_confirmed(events, p)
            &&& poll.phase is Enforce ==> was_confirmed(events, current_process(poll.phase))
        }),
    decreases events.len(),
{
    let poll = PollView::start(start).after(events);
    if events.len() > 0 {
        let front = events.drop_last();
        let before = PollView::start(start).after(front);
        let last = events.len() - 1;
        lemma_confirmed(start, front);
        assert(events[last] == events.last());
        assert forall|p: ProcessIdentity| was_confirmed(front, p) implies #[trigger] was_confirmed(
            events,
            p,
        ) by {
            lemma_confirmed_later(events, p);
        }
        assert forall|p: ProcessIdentity| #[trigger] before.queue.contains(p) implies was_confirmed(
            events,
            p,
        ) by {
            lemma_confirmed_later(events, p);
        }
        match (before.phase, events.last()) {
            (PollPhaseView::List { process }, PollEvent::Children(outcome)) => {
                let found = match outcome {
                    ChildrenOutcome::Found(children) => new_children(children@, before.known).0,
                    _ => Seq::empty(),
                };
                let queue = before.queue + found;
                walks_are_bounded(start, front);
                assert forall|p: ProcessIdentity| #[trigger] queue.contains(p) implies was_confirmed(
                    events,
                    p,
                ) by {
                    let k = choose|k: int| 0 <= k < queue.len() && queue[k] == p;
                    if k < before.queue.len() {
                        assert(before.queue[k] == p);
                        assert(before.queue.contains(p));
                    } else {
                        match outcome {
                            ChildrenOutcome::Found(children) => {
                                lemma_new_children(children@, before.known);
                                assert(found[k - before.queue.len()] == p);
                                assert(children@.contains(p));
                            },
                            _ => {},
                        }
                    }
                }
                assert(queue =~= match outcome {
                    ChildrenOutcome::Found(children) => before.queue + new_children(
                        children@,
                        before.known,
                    ).0,
                    _ => before.queue,
                });
                if queue.len() > 0 {
                    assert(queue.contains(queue[0]));
                    assert forall|p: ProcessIdentity| #[trigger]
                        queue.drop_first().contains(p) implies was_confirmed(events, p) by {
                        let k = choose|k: int|
                            0 <= k < queue.drop_first().len() && queue.drop_first()[k] == p;
                        assert(queue[k + 1] == p);
                        assert(queue.contains(p));
                    }
                }
            },
            _ => {},
        }
    }
}

/// Only confirmed processes are brought back to their CPUs: the root of a
/// tree, seen in this poll with the identity that was enrolled, or a process
/// that was listed as a child in this poll.
pub proof fn only_confirmed_processes_are_enforced(
    start: SupervisorView,
    events: Seq<PollEvent>,
    process: ProcessIdentity,
)
    requires
        PollView::start(start).after(events).phase == (PollPhaseView::Enforce { process }),
    ensures
        was_confirmed(events, process),
{
    lemma_confirmed(start, events);
}

/// How many trees a pass accounts for: those that wait, those that stay, and
/// those that were completed.
pub open spec fn accounted_trees(poll: PollView) -> int {
    poll.supervisor.trees.len() + poll.retained.len() + poll.supervisor.report.completed_roots
}

/// No tree gets lost in a poll: each one stays or is counted as completed.
pub proof fn trees_stay_or_complete(start: SupervisorView, events: Seq<PollEvent>)
    requires
        start.report.completed_roots + start.trees.len() <= usize::MAX,
    ensures
        accounted_trees(PollView::start(start).after(events)) == start.trees.len()
            + start.report.completed_roots,
        PollView::start(start).after(events).well_formed(),
    decreases events.len(),
{
    if events.len() > 0 {
        trees_stay_or_complete(start, events.drop_last());
    }
}

/// A poll that comes to its end turns one supervisor into another.
pub open spec fn poll_outcome(before: SupervisorView, after: SupervisorView) -> bool {
    exists|events: Seq<PollEvent>|
        #![trigger PollView::start(before).after(events)]
        PollView::start(before).after(events).phase is Finished && PollView::start(before).after(
            events,
        ).supervisor == after
}

/// What happens in a session can have happened: what is said to have polled is
/// the outcome of a poll of the session's own supervisor.
pub open spec fn sound_events(session: SessionView, events: Seq<SessionEvent>) -> bool
    decreases events.len(),
{
    events.len() == 0 || {
        &&& sound_events(session, events.drop_last())
        &&& match (session.after(events.drop_last()), events.last()) {
            (SessionView::Poll(before), SessionEvent::Polled(after)) => poll_outcome(before, after),
            _ => true,
        }
    }
}

/// Every root that is supervised is one that is watched or one that has
/// completed, and no signal has come.
pub open spec fn roots_accounted(supervisor: SupervisorView) -> bool {
    &&& supervisor.trees.len() + supervisor.report.completed_roots
        == supervisor.report.tracked_roots
    &&& supervisor.report.termination_signal is None
}

/// A report tells of no more roots than were supervised. It tells of all of
/// them exactly where no signal has ended the supervision.
pub open spec fn report_accounts(report: SupervisionView) -> bool {
    &&& report.completed_roots <= report.tracked_roots
    &&& report.completed_roots == report.tracked_roots <==> report.termination_signal is None
}

/// What a session holds accounts for the roots.
pub open spec fn session_accounts(session: SessionView) -> bool {
    match session {
        SessionView::OpenSignals(supervisor) | SessionView::CheckSignal(supervisor)
        | SessionView::Poll(supervisor) | SessionView::Sleep(supervisor) => {
            supervisor.trees.len() > 0 && roots_accounted(supervisor)
        },
        SessionView::Finished(report) => report_accounts(report),
        SessionView::Failed(_) => true,
    }
}

proof fn lemma_poll_keeps_report(start: SupervisorView, events: Seq<PollEvent>)
    ensures
        ({
            let after = PollView::start(start).after(events);
            &&& after.supervisor.report.tracked_roots == start.report.tracked_roots
            &&& after.supervisor.report.termination_signal == start.report.termination_signal
            &&& after.phase is Finished ==> after.retained.len() == 0
        }),
    decreases events.len(),
{
    if events.len() > 0 {
        lemma_poll_keeps_report(start, events.drop_last());
    }
}

/// A poll that comes to its end keeps every root accounted for.
pub proof fn polls_account_for_roots(before: SupervisorView, after: SupervisorView)
    requires
        roots_accounted(before),
        poll_outcome(before, after),
    ensures
        roots_accounted(after),
        after.report.tracked_roots == before.report.tracked_roots,
{
    let events = choose|events: Seq<PollEvent>|
        #![trigger PollView::start(before).after(events)]
        PollView::start(before).after(events).phase is Finished && PollView::start(before).after(
            events,
        ).supervisor == after;
    trees_stay_or_complete(before, events);
    lemma_poll_keeps_report(before, events);
}

/// A session that begins with every root accounted for goes on so to its end:
/// a report has no more completed roots than supervised ones, and all of them
/// are completed exactly where no signal has come.
pub proof fn sessions_account_for_roots(start: SupervisorView, events: Seq<SessionEvent>)
    requires
        roots_accounted(start),
        sound_events(SessionView::start(start), events),
    ensures
        session_accounts(SessionView::start(start).after(events)),
    decreases events.len(),
{
    if events.len() > 0 {
        sessions_account_for_roots(start, events.drop_last());
        match (SessionView::start(start).after(events.drop_last()), events.last()) {
            (SessionView::Poll(before), SessionEvent::Polled(after)) => {
                polls_account_for_roots(before, after);
            },
            _ => {},
        }
    }
}

/// Supervision as a whole, from the launch to the report: no more roots are
/// reported completed than were enrolled, and all of them are exactly where no
/// termination signal has come.
pub proof fn reports_account_for_enrolled_roots(
    plan: LaunchPlanView,
    initiated: Seq<InitiatedView>,
    seen: Seq<IdentityView>,
    events: Seq<SessionEvent>,
)
    requires
        supervision(plan, initiated, seen).trees.len() <= usize::MAX,
        sound_events(SessionView::start(supervision(plan, initiated, seen)), events),
    ensures
        roots_accounted(supervision(plan, initiated, seen)),
        match SessionView::start(supervision(plan, initiated, seen)).after(events) {
            SessionView::Finished(report) => {
                &&& report.tracked_roots == supervision(plan, initiated, seen).trees.len()
                &&& report.completed_roots <= report.tracked_roots
                &&& report.completed_roots == report.tracked_roots
                    <==> report.termination_signal is None
            },
            _ => true,
        },
{
    let start = supervision(plan, initiated, seen);
    sessions_account_for_roots(start, events);
    lemma_session_keeps_roots(start, events);
}

/// The number of supervised roots, where a session still knows it.
spec fn session_roots(session: SessionView) -> Option<usize> {
    match session {
        SessionView::OpenSignals(supervisor) | SessionView::CheckSignal(supervisor)
        | SessionView::Poll(supervisor) | SessionView::Sleep(supervisor) => Some(
            supervisor.report.tracked_roots,
        ),
        SessionView::Finished(report) => Some(report.tracked_roots),
        SessionView::Failed(_) => None,
    }
}

proof fn lemma_session_keeps_roots(start: SupervisorView, events: Seq<SessionEvent>)
    requires
        roots_accounted(start),
        sound_events(SessionView::start(start), events),
    ensures
        session_roots(SessionView::start(start).after(events)) matches Some(roots) ==> roots
            == start.report.tracked_roots,
    decreases events.len(),
{
    if events.len() > 0 {
        lemma_session_keeps_roots(start, events.drop_last());
        sessions_account_for_roots(start, events.drop_last());
        match (SessionView::start(start).after(events.drop_last()), events.last()) {
            (SessionView::Poll(before), SessionEvent::Polled(after)) => {
                polls_account_for_roots(before, after);
            },
            _ => {},
        }
    }
}

/// Where nothing is supervised, a poll does nothing.
pub proof fn nothing_to_poll(start: SupervisorView, events: Seq<PollEvent>)
    requires
        start.trees.len() == 0,
    ensures
        PollView::start(start).after(events).phase is Finished,
        PollView::start(start).after(events).supervisor == start,
    decreases events.len(),
{
    if events.len() > 0 {
        nothing_to_poll(start, events.drop_last());
    }
}

proof fn lemma_candidates(
    applications: Seq<PlannedView>,
    initiated: Seq<InitiatedView>,
    k: int,
)
    requires
        0 <= k < candidates(applications, initiated).len(),
    ensures
        is_enforced(applications, candidates(applications, initiated)[k].desktop_id),
        initiated.contains(candidates(applications, initiated)[k]),
    decreases applications.len(),
{
    let all = candidates(applications, initiated);
    let front = candidates(applications.drop_last(), initiated);
    if k < front.len() {
        lemma_candidates(applications.drop_last(), initiated, k);
        assert(all[k] == front[k]);
        let j = choose|j: int|
            0 <= j < applications.drop_last().len()
                && (#[trigger] applications.drop_last()[j]).desktop_id == front[k].desktop_id
                && applications.drop_last()[j].policy.enforce_process_tree;
        assert(applications[j] == applications.drop_last()[j]);
    } else {
        lemma_initiated_with(initiated, applications.last().desktop_id);
        assert(applications[applications.len() - 1] == applications.last());
    }
}

proof fn lemma_initiated_with(initiated: Seq<InitiatedView>, id: Seq<char>)
    ensures
        initiated_with(initiated, id) is Some ==> initiated.contains(
            initiated_with(initiated, id)->0,
        ) && initiated_with(initiated, id)->0.desktop_id == id,
    decreases initiated.len(),
{
    if initiated.len() > 0 {
        if initiated[0].desktop_id != id {
            lemma_initiated_with(initiated.drop_first(), id);
            if initiated_with(initiated, id) is Some {
                let one = initiated_with(initiated, id)->0;
                let k = choose|k: int|
                    0 <= k < initiated.drop_first().len() && initiated.drop_first()[k] == one;
                assert(initiated[k + 1] == one);
            }
        }
    }
}

spec fn matches_launch(tree: TreeView, one: InitiatedView) -> bool {
    tree.desktop_id == one.desktop_id && one.process_start_time_ticks == Some(
        tree.root.start_time_ticks,
    )
}

proof fn lemma_enrolled_match(
    all: Seq<InitiatedView>,
    seen: Seq<IdentityView>,
    cpus: Seq<u32>,
    k: int,
)
    requires
        0 <= k < enrolled(all, seen, cpus).trees.len(),
    ensures
        enrolled(all, seen, cpus).trees[k].cpus == cpus,
        exists|i: int|
            0 <= i < all.len() && matches_launch(
                enrolled(all, seen, cpus).trees[k],
                #[trigger] all[i],
            ),
    decreases all.len(),
{
    let front = enrolled(all.drop_last(), seen, cpus);
    if k < front.trees.len() {
        lemma_enrolled_match(all.drop_last(), seen, cpus, k);
        let i = choose|i: int|
            0 <= i < all.drop_last().len() && matches_launch(
                front.trees[k],
                #[trigger] all.drop_last()[i],
            );
        assert(all[i] == all.drop_last()[i]);
    } else {
        assert(all[all.len() - 1] == all.last());
    }
}

/// Every tree under supervision belongs to an application that was launched
/// and whose plan asks for it, and its root started when the launched process
/// did; it is kept on exactly the CPUs of the plan.
pub proof fn enrolled_trees_match_the_launch(
    plan: LaunchPlanView,
    initiated: Seq<InitiatedView>,
    seen: Seq<IdentityView>,
    k: int,
)
    requires
        0 <= k < supervision(plan, initiated, seen).trees.len(),
    ensures
        ({
            let tree = supervision(plan, initiated, seen).trees[k];
            &&& is_enforced(plan.applications, tree.desktop_id)
            &&& tree.cpus == plan.efficiency_cpus
            &&& exists|i: int|
                0 <= i < initiated.len() && (#[trigger] initiated[i]).desktop_id == tree.desktop_id
                    && initiated[i].process_start_time_ticks == Some(tree.root.start_time_ticks)
        }),
{
    let all = candidates(plan.applications, initiated);
    let tree = supervision(plan, initiated, seen).trees[k];
    lemma_enrolled_match(all, seen, plan.efficiency_cpus, k);
    let i = choose|i: int| 0 <= i < all.len() && matches_launch(tree, #[trigger] all[i]);
    lemma_candidates(plan.applications, initiated, i);
    let j = choose|j: int| 0 <= j < initiated.len() && initiated[j] == all[i];
    assert(initiated[j].desktop_id == tree.desktop_id);
}

/// A thread was seen to belong to the process under check, and the process to
/// be the one that was asked for.
pub open spec fn thread_verified(
    start: AffinityCheckView,
    events: Seq<AffinityEvent>,
    tid: u32,
) -> bool {
    exists|i: int| 0 <= i < events.len() && #[trigger] verifies_thread(start, events, i, tid)
}

pub open spec fn verifies_thread(
    start: AffinityCheckView,
    events: Seq<AffinityEvent>,
    i: int,
    tid: u32,
) -> bool {
    &&& start.after(events.take(i)).phase == (AffinityPhaseView::Inspect { tid })
    &&& events[i] matches AffinityEvent::Inspected { identity, belongs }
    &&& identity@.is(start.process)
    &&& belongs == Ok::<bool, String>(true)
}

spec fn handled_thread(phase: AffinityPhaseView) -> Option<u32> {
    match phase {
        AffinityPhaseView::Read { tid } => Some(tid),
        AffinityPhaseView::Apply { tid } => Some(tid),
        AffinityPhaseView::Confirm { tid } => Some(tid),
        _ => None,
    }
}

proof fn lemma_thread_verified(start: AffinityCheckView, events: Seq<AffinityEvent>)
    requires
        start.phase is Identify,
    ensures
        start.after(events).process == start.process,
        handled_thread(start.after(events).phase) matches Some(tid) ==> thread_verified(
            start,
            events,
            tid,
        ),
    decreases events.len(),
{
    if events.len() > 0 {
        let front = events.drop_last();
        let before = start.after(front);
        let last = events.len() - 1;
        lemma_thread_verified(start, front);
        assert(events.take(last) =~= front);
        match handled_thread(start.after(events).phase) {
            Some(tid) => {
                if handled_thread(before.phase) == Some(tid) {
                    let i = choose|i: int|
                        0 <= i < front.len() && #[trigger] verifies_thread(start, front, i, tid);
                    assert(front.take(i) =~= events.take(i));
                    assert(verifies_thread(start, events, i, tid));
                } else {
                    assert(verifies_thread(start, events, last, tid));
                }
            },
            None => {},
        }
    }
}

/// The affinity of a thread is changed only after the thread was seen to
/// belong to the process, and the process to be the one that was asked for.
pub proof fn only_verified_threads_are_changed(
    start: AffinityCheckView,
    events: Seq<AffinityEvent>,
    tid: u32,
)
    requires
        start.phase is Identify,
        start.after(events).phase == (AffinityPhaseView::Apply { tid }),
    ensures
        thread_verified(start, events, tid),
{
    lemma_thread_verified(start, events);
}

} // verus!
