//! A finished affinity check has dealt with every thread of its process.
use vstd::prelude::*;

use super::affinity::{AffinityCheckView, AffinityEvent, AffinityPhaseView, AffinityResult};
use super::procfs::{numbers_outcome, IdentityOutcome, ProcessIdentity};
use crate::launcher::policy::{cpu_members, held_cpus, number_set};

verus! {

/// A set holds exactly the given ones of the CPUs that a set can hold.
pub open spec fn holds_exactly(set: nix::sched::CpuSet, cpus: Seq<u32>) -> bool {
    forall|cpu: u32|
        cpu < 1024 ==> (#[trigger] cpu_members(set).contains(cpu as int) <==> cpus.contains(cpu))
}

/// The look at a thread shows that it belongs to the process.
pub open spec fn shows_own_thread(event: AffinityEvent, process: ProcessIdentity) -> bool {
    match event {
        AffinityEvent::Inspected {
            identity: IdentityOutcome::Found { identity, parent },
            belongs: Ok(belongs),
        } => identity == process && belongs,
        _ => false,
    }
}

/// The thread was looked at with this event.
pub open spec fn inspected_at(
    start: AffinityCheckView,
    events: Seq<AffinityEvent>,
    i: int,
    tid: u32,
) -> bool {
    &&& 0 <= i < events.len()
    &&& start.after(events.take(i)).phase == (AffinityPhaseView::Inspect { tid })
    &&& events[i] is Inspected
}

/// The thread was read as on the CPUs, was seen to be on them after it was set,
/// or is gone.
pub open spec fn resolved_at(
    start: AffinityCheckView,
    events: Seq<AffinityEvent>,
    j: int,
    tid: u32,
) -> bool {
    &&& 0 <= j < events.len()
    &&& match (start.after(events.take(j)).phase, events[j]) {
        (AffinityPhaseView::Read { tid: t }, AffinityEvent::Affinity(set)) => t == tid
            && holds_exactly(set, start.cpus),
        (AffinityPhaseView::Confirm { tid: t }, AffinityEvent::Affinity(set)) => t == tid
            && holds_exactly(set, start.cpus),
        (AffinityPhaseView::Read { tid: t }, AffinityEvent::Gone(_)) => t == tid,
        (AffinityPhaseView::Apply { tid: t }, AffinityEvent::Gone(_)) => t == tid,
        _ => false,
    }
}

/// The thread was looked at, and is none of the process's or was resolved
/// afterwards.
pub open spec fn settled(start: AffinityCheckView, events: Seq<AffinityEvent>, tid: u32) -> bool {
    exists|i: int| #[trigger]
        inspected_at(start, events, i, tid) && (!shows_own_thread(events[i], start.process)
            || resolved_after(start, events, i, tid))
}

pub open spec fn resolved_after(
    start: AffinityCheckView,
    events: Seq<AffinityEvent>,
    i: int,
    tid: u32,
) -> bool {
    exists|j: int| i < j && #[trigger] resolved_at(start, events, j, tid)
}

/// The threads of the process were listed with this event.
pub open spec fn listed_at(
    start: AffinityCheckView,
    events: Seq<AffinityEvent>,
    t: int,
    tids: Seq<u32>,
) -> bool {
    &&& 0 <= t < events.len()
    &&& start.after(events.take(t)).phase is ListTasks
    &&& events[t] matches AffinityEvent::Tasks(Ok(listed))
    &&& listed@ == tids
}

/// How many threads were seen to be on the CPUs after they were set.
pub open spec fn confirmed_count(start: AffinityCheckView, events: Seq<AffinityEvent>) -> nat
    decreases events.len(),
{
    if events.len() == 0 {
        0
    } else {
        let front = events.drop_last();
        let more: nat = match (start.after(front).phase, events.last()) {
            (AffinityPhaseView::Confirm { tid }, AffinityEvent::Affinity(set)) => if holds_exactly(
                set,
                start.cpus,
            ) {
                1
            } else {
                0
            },
            _ => 0,
        };
        confirmed_count(start, front) + more
    }
}

/// The thread that is being dealt with.
spec fn current_thread(phase: AffinityPhaseView) -> Option<u32> {
    match phase {
        AffinityPhaseView::Inspect { tid } => Some(tid),
        AffinityPhaseView::Read { tid } => Some(tid),
        AffinityPhaseView::Apply { tid } => Some(tid),
        AffinityPhaseView::Confirm { tid } => Some(tid),
        _ => None,
    }
}

/// The thread was shown to be the process's own.
spec fn shown_own(start: AffinityCheckView, events: Seq<AffinityEvent>, tid: u32) -> bool {
    exists|i: int| #[trigger]
        inspected_at(start, events, i, tid) && shows_own_thread(events[i], start.process)
}

spec fn goes_on(phase: AffinityPhaseView) -> bool {
    phase is Inspect || phase is Read || phase is Apply || phase is Confirm
}

spec fn is_counted(result: AffinityPhaseView) -> bool {
    result matches AffinityPhaseView::Finished(r) && r != AffinityResult::Vanished
}

spec fn covers(
    start: AffinityCheckView,
    events: Seq<AffinityEvent>,
    state: AffinityCheckView,
    tids: Seq<u32>,
) -> bool {
    forall|k: int|
        0 <= k < tids.len() ==> settled(start, events, #[trigger] tids[k]) || current_thread(
            state.phase,
        ) == Some(tids[k]) || state.waiting.contains(tids[k])
}

spec fn listed_and_covered(start: AffinityCheckView, events: Seq<AffinityEvent>) -> bool {
    exists|t: int, tids: Seq<u32>| #[trigger]
        listed_at(start, events, t, tids) && covers(start, events, start.after(events), tids)
}

proof fn lemma_expected(cpus: Seq<u32>, set: nix::sched::CpuSet)
    ensures
        super::affinity::is_expected(cpus, set) <==> holds_exactly(set, cpus),
{
    let wanted = number_set(cpus).intersect(Set::new(|cpu: int| 0 <= cpu < 1024));
    if super::affinity::is_expected(cpus, set) {
        assert forall|cpu: u32| cpu < 1024 implies (#[trigger] cpu_members(set).contains(cpu as int)
            <==> cpus.contains(cpu)) by {
            assert(held_cpus(set).contains(cpu as int) <==> wanted.contains(cpu as int));
        }
    }
    if holds_exactly(set, cpus) {
        assert forall|x: int| held_cpus(set).contains(x) <==> wanted.contains(x) by {
            if 0 <= x < 1024 {
                assert(cpu_members(set).contains(x as u32 as int) <==> cpus.contains(x as u32));
            }
        }
        assert(held_cpus(set) =~= wanted);
    }
}

proof fn lemma_inspected_later(
    start: AffinityCheckView,
    events: Seq<AffinityEvent>,
    i: int,
    tid: u32,
)
    requires
        events.len() > 0,
    ensures
        inspected_at(start, events.drop_last(), i, tid) ==> inspected_at(start, events, i, tid)
            && events[i] == events.drop_last()[i],
        resolved_at(start, events.drop_last(), i, tid) ==> resolved_at(start, events, i, tid),
{
    let front = events.drop_last();
    if 0 <= i < front.len() {
        assert(front.take(i) =~= events.take(i));
    }
}

proof fn lemma_settled_later(start: AffinityCheckView, events: Seq<AffinityEvent>, tid: u32)
    requires
        events.len() > 0,
    ensures
        settled(start, events.drop_last(), tid) ==> settled(start, events, tid),
        shown_own(start, events.drop_last(), tid) ==> shown_own(start, events, tid),
{
    let front = events.drop_last();
    if settled(start, front, tid) {
        let i = choose|i: int| #[trigger]
            inspected_at(start, front, i, tid) && (!shows_own_thread(front[i], start.process)
                || resolved_after(start, front, i, tid));
        lemma_inspected_later(start, events, i, tid);
        if resolved_after(start, front, i, tid) {
            let j = choose|j: int| i < j && #[trigger] resolved_at(start, front, j, tid);
            lemma_inspected_later(start, events, j, tid);
            assert(resolved_after(start, events, i, tid));
        }
        assert(inspected_at(start, events, i, tid));
    }
    if shown_own(start, front, tid) {
        let i = choose|i: int| #[trigger]
            inspected_at(start, front, i, tid) && shows_own_thread(front[i], start.process);
        lemma_inspected_later(start, events, i, tid);
        assert(inspected_at(start, events, i, tid));
    }
}

/// The thread that was dealt with is settled where the check goes on from it.
proof fn lemma_left_thread_is_settled(
    start: AffinityCheckView,
    events: Seq<AffinityEvent>,
    tid: u32,
)
    requires
        events.len() > 0,
        start.after(events.drop_last()).process == start.process,
        start.after(events.drop_last()).cpus == start.cpus,
        current_thread(start.after(events.drop_last()).phase) == Some(tid),
        start.after(events.drop_last()).phase is Inspect || shown_own(
            start,
            events.drop_last(),
            tid,
        ),
    ensures
        ({
            let before = start.after(events.drop_last());
            let after = start.after(events);
            ||| after == before
            ||| after.phase is Failed
            ||| settled(start, events, tid) && after.waiting == before.advanced().waiting
                && after.phase == before.advanced().phase
            ||| settled(start, events, tid) && after.waiting == before.advanced().waiting
                && is_counted(after.phase) && is_counted(before.advanced().phase)
            ||| current_thread(after.phase) == Some(tid) && after.waiting == before.waiting && (
            after.phase is Inspect || shown_own(start, events, tid))
        }),
{
    let front = events.drop_last();
    let last = events.len() - 1;
    let before = start.after(front);
    let after = start.after(events);
    let event = events[last];
    assert(events.take(last) =~= front);
    lemma_settled_later(start, events, tid);
    match (before.phase, event) {
        (AffinityPhaseView::Inspect { tid: t }, AffinityEvent::Inspected { identity, belongs }) => {
            assert(inspected_at(start, events, last, tid));
            if !shows_own_thread(event, start.process) {
                assert(settled(start, events, tid));
            } else {
                assert(shown_own(start, events, tid));
            }
        },
        (AffinityPhaseView::Read { tid: t }, AffinityEvent::Affinity(set)) => {
            lemma_expected(start.cpus, set);
            if holds_exactly(set, start.cpus) {
                assert(resolved_at(start, events, last, tid));
                lemma_resolved_own(start, events, tid);
            }
        },
        (AffinityPhaseView::Confirm { tid: t }, AffinityEvent::Affinity(set)) => {
            lemma_expected(start.cpus, set);
            if holds_exactly(set, start.cpus) {
                assert(resolved_at(start, events, last, tid));
                lemma_resolved_own(start, events, tid);
            }
        },
        (AffinityPhaseView::Read { tid: t }, AffinityEvent::Gone(_)) => {
            assert(resolved_at(start, events, last, tid));
            lemma_resolved_own(start, events, tid);
        },
        (AffinityPhaseView::Apply { tid: t }, AffinityEvent::Gone(_)) => {
            assert(resolved_at(start, events, last, tid));
            lemma_resolved_own(start, events, tid);
        },
        _ => {},
    }
}

proof fn lemma_resolved_own(start: AffinityCheckView, events: Seq<AffinityEvent>, tid: u32)
    requires
        events.len() > 0,
        shown_own(start, events.drop_last(), tid),
        resolved_at(start, events, events.len() - 1, tid),
    ensures
        settled(start, events, tid),
{
    let front = events.drop_last();
    let i = choose|i: int| #[trigger]
        inspected_at(start, front, i, tid) && shows_own_thread(front[i], start.process);
    lemma_inspected_later(start, events, i, tid);
    assert(inspected_at(start, events, i, tid));
    assert(resolved_after(start, events, i, tid));
}

proof fn lemma_covered_step(start: AffinityCheckView, events: Seq<AffinityEvent>)
    requires
        events.len() > 0,
        start.after(events.drop_last()).process == start.process,
        start.after(events.drop_last()).cpus == start.cpus,
        goes_on(start.after(events.drop_last()).phase) || is_counted(
            start.after(events.drop_last()).phase,
        ),
        listed_and_covered(start, events.drop_last()),
        !(start.after(events.drop_last()).phase is Inspect) ==> (current_thread(
            start.after(events.drop_last()).phase,
        ) matches Some(tid) ==> shown_own(start, events.drop_last(), tid)),
    ensures
        goes_on(start.after(events).phase) || is_counted(start.after(events).phase)
            ==> listed_and_covered(start, events),
{
    let front = events.drop_last();
    let before = start.after(front);
    let after = start.after(events);
    let (t, tids) = choose|t: int, tids: Seq<u32>| #[trigger]
        listed_at(start, front, t, tids) && covers(start, front, before, tids);
    assert(front.take(t) =~= events.take(t));
    assert(listed_at(start, events, t, tids));
    if current_thread(before.phase) is Some {
        lemma_left_thread_is_settled(start, events, current_thread(before.phase)->0);
    }
    if goes_on(after.phase) || is_counted(after.phase) {
        assert forall|k: int| 0 <= k < tids.len() implies settled(start, events, #[trigger] tids[k])
            || current_thread(after.phase) == Some(tids[k]) || after.waiting.contains(
            tids[k],
        ) by {
            lemma_settled_later(start, events, tids[k]);
            if before.waiting.contains(tids[k]) && !after.waiting.contains(tids[k]) {
                let w = choose|w: int| 0 <= w < before.waiting.len() && before.waiting[w] == tids[k];
                if w < before.waiting.len() - 1 {
                    assert(before.waiting.drop_last()[w] == tids[k]);
                }
            }
        }
        assert(covers(start, events, after, tids));
    }
}

spec fn at_most_all(n: nat) -> u64 {
    if n >= u64::MAX {
        u64::MAX
    } else {
        n as u64
    }
}

proof fn lemma_covered(start: AffinityCheckView, events: Seq<AffinityEvent>)
    requires
        start.phase is Identify,
        start.updates == 0,
    ensures
        ({
            let state = start.after(events);
            &&& state.process == start.process
            &&& state.cpus == start.cpus
            &&& state.updates == at_most_all(confirmed_count(start, events))
            &&& goes_on(state.phase) || is_counted(state.phase) ==> listed_and_covered(
                start,
                events,
            )
            &&& is_counted(state.phase) ==> state.waiting.len() == 0 && state.phase
                == AffinityPhaseView::Finished(
                if state.updates == 0 {
                    AffinityResult::AlreadyCorrect
                } else {
                    AffinityResult::Updated(state.updates)
                },
            )
            &&& !(state.phase is Inspect) ==> (current_thread(state.phase) matches Some(tid)
                ==> shown_own(start, events, tid))
        }),
    decreases events.len(),
{
    if events.len() > 0 {
        let front = events.drop_last();
        let last = events.len() - 1;
        let before = start.after(front);
        let after = start.after(events);
        lemma_covered(start, front);
        assert(events.take(last) =~= front);
        match (before.phase, events[last]) {
            (AffinityPhaseView::Confirm { tid }, AffinityEvent::Affinity(set)) => {
                lemma_expected(start.cpus, set);
            },
            _ => {},
        }
        if goes_on(before.phase) || is_counted(before.phase) {
            lemma_covered_step(start, events);
            if current_thread(before.phase) is Some {
                lemma_left_thread_is_settled(start, events, current_thread(before.phase)->0);
                lemma_settled_later(start, events, current_thread(before.phase)->0);
            }
        } else if goes_on(after.phase) || is_counted(after.phase) {
            let tids = numbers_outcome(events[last]->Tasks_0)->Ok_0;
            assert(listed_at(start, events, last, tids));
            assert forall|k: int| 0 <= k < tids.len() implies settled(
                start,
                events,
                #[trigger] tids[k],
            ) || current_thread(after.phase) == Some(tids[k]) || after.waiting.contains(tids[k]) by {
                let turned = tids.reverse();
                let w = tids.len() - 1 - k;
                assert(turned[w] == tids[k]);
                if w < turned.len() - 1 {
                    assert(after.waiting[w] == tids[k]);
                }
            }
            assert(covers(start, events, after, tids));
        }
    }
}

/// The beginning of the check of a process that belongs on some CPUs.
pub open spec fn fresh_check(process: ProcessIdentity, cpus: Seq<u32>) -> AffinityCheckView {
    AffinityCheckView {
        process,
        expected: None,
        cpus,
        waiting: Seq::empty(),
        updates: 0,
        phase: AffinityPhaseView::Identify,
    }
}

/// A check that finishes with its process still there has listed the threads
/// of the process and looked at every one of them. Each one that belongs to
/// the process was read as on exactly the expected CPUs, was set and confirmed
/// to be on them, or is gone; and the result counts those that were confirmed.
pub proof fn finished_checks_cover_every_thread(
    process: ProcessIdentity,
    cpus: Seq<u32>,
    events: Seq<AffinityEvent>,
    result: AffinityResult,
)
    requires
        fresh_check(process, cpus).after(events).phase == AffinityPhaseView::Finished(result),
        result != AffinityResult::Vanished,
    ensures
        exists|t: int, tids: Seq<u32>| #[trigger]
            listed_at(fresh_check(process, cpus), events, t, tids) && forall|k: int|
                0 <= k < tids.len() ==> settled(
                    fresh_check(process, cpus),
                    events,
                    #[trigger] tids[k],
                ),
        match result {
            AffinityResult::AlreadyCorrect => confirmed_count(fresh_check(process, cpus), events)
                == 0,
            AffinityResult::Updated(count) => {
                &&& count > 0
                &&& count == confirmed_count(fresh_check(process, cpus), events) || (count
                    == u64::MAX && confirmed_count(fresh_check(process, cpus), events) > u64::MAX)
            },
            AffinityResult::Vanished => false,
        },
{
    let start = fresh_check(process, cpus);
    lemma_covered(start, events);
    let (t, tids) = choose|t: int, tids: Seq<u32>| #[trigger]
        listed_at(start, events, t, tids) && covers(start, events, start.after(events), tids);
    assert(listed_at(start, events, t, tids));
}

/// A check gives its process up only where the process was not found, another
/// one was found in its place, or it has no thread.
pub proof fn checks_vanish_only_with_the_process(
    process: ProcessIdentity,
    cpus: Seq<u32>,
    events: Seq<AffinityEvent>,
)
    requires
        fresh_check(process, cpus).after(events).phase == AffinityPhaseView::Finished(
            AffinityResult::Vanished,
        ),
    ensures
        exists|i: int|
            0 <= i < events.len() && match #[trigger] events[i] {
                AffinityEvent::Identity(IdentityOutcome::Found { identity, parent }) => identity
                    != process,
                AffinityEvent::Identity(IdentityOutcome::Missing) => true,
                AffinityEvent::Tasks(Ok(tids)) => tids@.len() == 0,
                _ => false,
            },
    decreases events.len(),
{
    let start = fresh_check(process, cpus);
    if events.len() > 0 {
        let front = events.drop_last();
        let last = events.len() - 1;
        lemma_covered(start, front);
        if start.after(front).phase == AffinityPhaseView::Finished(AffinityResult::Vanished) {
            checks_vanish_only_with_the_process(process, cpus, front);
            let i = choose|i: int|
                0 <= i < front.len() && match #[trigger] front[i] {
                    AffinityEvent::Identity(IdentityOutcome::Found { identity, parent }) => identity
                        != process,
                    AffinityEvent::Identity(IdentityOutcome::Missing) => true,
                    AffinityEvent::Tasks(Ok(tids)) => tids@.len() == 0,
                    _ => false,
                };
            assert(events[i] == front[i]);
        } else {
            match events[last] {
                AffinityEvent::Identity(IdentityOutcome::Found { identity, parent }) => {
                    assert(identity != process);
                },
                _ => {},
            }
        }
    }
}

/// A thread of the process that is found elsewhere is set at once, and then
/// read again.
pub proof fn strayed_threads_are_brought_back(
    check: AffinityCheckView,
    tid: u32,
    set: nix::sched::CpuSet,
)
    requires
        check.phase == (AffinityPhaseView::Read { tid }),
        !holds_exactly(set, check.cpus),
    ensures
        ({
            let applied = check.next(AffinityEvent::Affinity(set));
            &&& applied.phase == (AffinityPhaseView::Apply { tid })
            &&& applied.next(AffinityEvent::Succeeded).phase == (AffinityPhaseView::Confirm { tid })
        }),
{
    lemma_expected(check.cpus, set);
}

} // verus!
