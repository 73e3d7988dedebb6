//! What supervision makes of what `/proc` tells, and which applications it
//! takes in.
use vstd::prelude::*;

use super::affinity::enforced_failure;
use super::enroll::{
    candidates, enrolled, initiated_pid, initiated_with, is_enforced, seen_at, supervision,
    supervision_failure, unconfirmed_failure, unidentified_failure,
};
use super::poll::{SupervisorView, TreeView};
use super::procfs::{
    belongs, children_named, children_of, command_end, identity_from, listed_tasks, stat_identity,
    task_number, tasks_of, thread_group, thread_group_line, true_children, with_children,
    word_number, IdentityView, ProcessIdentity, ProcfsState,
};
use super::session::{SessionEvent, SessionView};
use super::types::{
    SupervisorErrorView, MAX_PROCESSES_PER_TREE, MAX_SUPERVISOR_WARNINGS,
    MINIMUM_POLL_INTERVAL_NANOS,
};
use crate::launcher::error::InitiatedView;
use crate::launcher::meaning::affinity_sets_hold_what_fits;
use crate::launcher::plan::{LaunchPlanView, PlannedView};
use crate::order::{lemma_insert_number, lemma_sorted_set};
use crate::path::{FileReadView, ListingEntryView, ListingView};
use crate::text::{lines, starts_with, trim, unsigned_value, words};

verus! {

/// What was seen is a process whose parent is the given one and that did not
/// start before it.
pub open spec fn is_child(
    parent: ProcessIdentity,
    seen: IdentityView,
    child: ProcessIdentity,
) -> bool {
    &&& seen == (IdentityView::Found { identity: child, parent: parent.pid })
    &&& child.start_time_ticks >= parent.start_time_ticks
}

/// The children of a process are exactly those of the processes seen that name
/// it as their parent and did not start before it. Where one of them could not
/// be seen, nothing is told.
pub proof fn children_are_those_with_the_parent(
    parent: ProcessIdentity,
    seen: Seq<IdentityView>,
    child: ProcessIdentity,
)
    ensures
        true_children(parent, seen) is Ok <==> forall|i: int|
            0 <= i < seen.len() ==> !(#[trigger] seen[i] is Failed),
        true_children(parent, seen) matches Ok(found) ==> (found.contains(child) <==> exists|i: int|
            0 <= i < seen.len() && is_child(parent, #[trigger] seen[i], child)),
    decreases seen.len(),
{
    if seen.len() > 0 {
        let front = seen.drop_last();
        let last = seen.last();
        children_are_those_with_the_parent(parent, front, child);
        assert forall|i: int| 0 <= i < front.len() implies front[i] == seen[i] by {}
        assert(seen[seen.len() - 1] == last);
        if true_children(parent, seen) is Ok {
            let found = true_children(parent, seen)->Ok_0;
            let earlier = true_children(parent, front)->Ok_0;
            assert(true_children(parent, front) is Ok);
            if earlier.contains(child) {
                let i = choose|i: int|
                    0 <= i < front.len() && is_child(parent, #[trigger] front[i], child);
                assert(is_child(parent, seen[i], child));
                let j = choose|j: int| 0 <= j < earlier.len() && earlier[j] == child;
                assert(found[j] == child);
            }
            if is_child(parent, last, child) {
                assert(found.last() == child);
                assert(found[found.len() - 1] == child);
            }
            if found.contains(child) {
                let j = choose|j: int| 0 <= j < found.len() && found[j] == child;
                if j < earlier.len() {
                    assert(earlier[j] == child);
                }
            }
            if exists|i: int| 0 <= i < seen.len() && is_child(parent, #[trigger] seen[i], child) {
                let i = choose|i: int|
                    0 <= i < seen.len() && is_child(parent, #[trigger] seen[i], child);
                if i < front.len() {
                    assert(is_child(parent, front[i], child));
                }
            }
        }
        if true_children(parent, seen) is Ok {
            assert forall|i: int| 0 <= i < seen.len() implies !(#[trigger] seen[i] is Failed) by {
                if i < front.len() {
                    assert(!(front[i] is Failed));
                }
            }
        }
        if forall|i: int| 0 <= i < seen.len() ==> !(#[trigger] seen[i] is Failed) {
            assert forall|i: int| 0 <= i < front.len() implies !(#[trigger] front[i] is Failed) by {
                assert(!(seen[i] is Failed));
            }
        }
    }
}

/// The children of a process that is gone, or that another has taken the
/// number of, are none.
pub proof fn gone_processes_have_no_children(
    parent: ProcessIdentity,
    again: IdentityView,
    seen: Seq<IdentityView>,
)
    ensures
        match again {
            IdentityView::Failed(message) => children_of(parent, again, seen) == Err::<
                Seq<ProcessIdentity>,
                Seq<char>,
            >(message),
            IdentityView::Missing => children_of(parent, again, seen) == Ok::<
                Seq<ProcessIdentity>,
                Seq<char>,
            >(Seq::empty()),
            IdentityView::Found { identity, .. } => if identity == parent {
                children_of(parent, again, seen) == true_children(parent, seen)
            } else {
                children_of(parent, again, seen) == Ok::<Seq<ProcessIdentity>, Seq<char>>(
                    Seq::empty(),
                )
            },
        },
{
}

/// An entry of a listing is the number of a thread.
pub open spec fn names_thread(entry: ListingEntryView, tid: u32) -> bool {
    entry matches ListingEntryView::Name(name) && task_number(name) == Some(tid)
}

proof fn lemma_listed_tasks(entries: Seq<ListingEntryView>, tid: u32)
    ensures
        listed_tasks(entries) matches Ok(found) ==> {
            &&& found.contains(tid) <==> exists|i: int|
                0 <= i < entries.len() && names_thread(#[trigger] entries[i], tid)
            &&& forall|i: int| 0 <= i < entries.len() ==> !(#[trigger] entries[i] is Failed)
            &&& found.len() <= entries.len()
        },
        listed_tasks(entries) is Err ==> entries.len() > MAX_PROCESSES_PER_TREE || exists|i: int|
            0 <= i < entries.len() && #[trigger] entries[i] is Failed,
    decreases entries.len(),
{
    if entries.len() > 0 {
        let front = entries.drop_last();
        let last = entries.last();
        lemma_listed_tasks(front, tid);
        assert forall|i: int| 0 <= i < front.len() implies front[i] == entries[i] by {}
        assert(entries[entries.len() - 1] == last);
        match listed_tasks(front) {
            Err(_) => {
                if exists|i: int| 0 <= i < front.len() && #[trigger] front[i] is Failed {
                    let i = choose|i: int| 0 <= i < front.len() && #[trigger] front[i] is Failed;
                    assert(entries[i] is Failed);
                }
            },
            Ok(earlier) => {
                if listed_tasks(entries) is Ok {
                    let found = listed_tasks(entries)->Ok_0;
                    if earlier.contains(tid) {
                        let i = choose|i: int|
                            0 <= i < front.len() && names_thread(#[trigger] front[i], tid);
                        assert(names_thread(entries[i], tid));
                        let j = choose|j: int| 0 <= j < earlier.len() && earlier[j] == tid;
                        assert(found[j] == tid);
                    }
                    if names_thread(last, tid) {
                        assert(found[found.len() - 1] == tid);
                    }
                    if found.contains(tid) {
                        let j = choose|j: int| 0 <= j < found.len() && found[j] == tid;
                        if j < earlier.len() {
                            assert(earlier[j] == tid);
                        }
                    }
                    if exists|i: int|
                        0 <= i < entries.len() && names_thread(#[trigger] entries[i], tid) {
                        let i = choose|i: int|
                            0 <= i < entries.len() && names_thread(#[trigger] entries[i], tid);
                        if i < front.len() {
                            assert(names_thread(front[i], tid));
                        }
                    }
                    assert forall|i: int| 0 <= i < entries.len() implies !(
                    #[trigger] entries[i] is Failed) by {
                        if i < front.len() {
                            assert(!(front[i] is Failed));
                        }
                    }
                }
            },
        }
    }
}

/// The threads of a process that is there are exactly those that its task
/// directory lists, in ascending order; of one that is gone there are none.
/// They are told unless the process or an entry could not be seen, or there are
/// too many.
pub proof fn threads_are_those_listed(
    process: ProcessIdentity,
    seen: IdentityView,
    entries: Seq<ListingEntryView>,
    tid: u32,
)
    ensures
        tasks_of(process, seen, ListingView::Entries(entries)) matches Ok(found) ==> (
        found.contains(tid) <==> seen.is(process) && exists|i: int|
            0 <= i < entries.len() && names_thread(#[trigger] entries[i], tid)),
        tasks_of(process, seen, ListingView::Entries(entries)) matches Ok(found)
            ==> crate::order::ascending(found),
        tasks_of(process, seen, ListingView::Entries(entries)) is Err ==> seen is Failed
            || entries.len() > MAX_PROCESSES_PER_TREE || exists|i: int|
            0 <= i < entries.len() && #[trigger] entries[i] is Failed,
        tasks_of(process, seen, ListingView::Entries(entries)) is Ok && seen.is(process)
            ==> forall|i: int| 0 <= i < entries.len() ==> !(#[trigger] entries[i] is Failed),
        seen is Failed ==> tasks_of(process, seen, ListingView::Entries(entries)) is Err,
{
    lemma_listed_tasks(entries, tid);
    if listed_tasks(entries) is Ok {
        lemma_sorted_set(listed_tasks(entries)->Ok_0);
    }
}

/// A word is the number of a process.
pub open spec fn word_names(word: Seq<char>, pid: u32) -> bool {
    unsigned_value(word) == Some(pid as nat)
}

proof fn lemma_with_children(known: Seq<u32>, names: Seq<Seq<char>>, pid: u32)
    requires
        crate::order::ascending(known),
    ensures
        with_children(known, names) matches Ok(found) ==> {
            &&& crate::order::ascending(found)
            &&& found.contains(pid) <==> known.contains(pid) || exists|i: int|
                0 <= i < names.len() && word_names(#[trigger] names[i], pid)
        },
    decreases names.len(),
{
    if names.len() > 0 {
        let front = names.drop_last();
        let last = names.last();
        lemma_with_children(known, front, pid);
        assert(names[names.len() - 1] == last);
        if with_children(known, names) is Ok {
            let found = with_children(known, names)->Ok_0;
            let earlier = with_children(known, front)->Ok_0;
            if word_number(last) is Some {
                lemma_insert_number(earlier, word_number(last)->0);
            }
            if exists|i: int| 0 <= i < front.len() && word_names(#[trigger] front[i], pid) {
                let i = choose|i: int| 0 <= i < front.len() && word_names(#[trigger] front[i], pid);
                assert(word_names(names[i], pid));
            }
            if exists|i: int| 0 <= i < names.len() && word_names(#[trigger] names[i], pid) {
                let i = choose|i: int| 0 <= i < names.len() && word_names(#[trigger] names[i], pid);
                if i < front.len() {
                    assert(word_names(front[i], pid));
                }
            }
        }
    }
}

/// A `children` file names a process.
pub open spec fn file_names(file: FileReadView, pid: u32) -> bool {
    match file {
        FileReadView::Contents(text) => exists|i: int|
            0 <= i < words(text).len() && word_names(#[trigger] words(text)[i], pid),
        _ => false,
    }
}

/// The children of a process are exactly those that the files of its threads
/// name, whichever thread it was that started them.
pub proof fn children_are_those_named(files: Seq<FileReadView>, pid: u32)
    ensures
        children_named(files) matches Ok(found) ==> {
            &&& crate::order::ascending(found)
            &&& found.contains(pid) <==> exists|i: int|
                0 <= i < files.len() && file_names(#[trigger] files[i], pid)
        },
        (exists|i: int| 0 <= i < files.len() && #[trigger] files[i] is Failed) ==> children_named(
            files,
        ) is Err,
    decreases files.len(),
{
    if files.len() > 0 {
        let front = files.drop_last();
        let last = files.last();
        children_are_those_named(front, pid);
        assert(files[files.len() - 1] == last);
        if exists|i: int| 0 <= i < files.len() && #[trigger] files[i] is Failed {
            let i = choose|i: int| 0 <= i < files.len() && #[trigger] files[i] is Failed;
            if i < front.len() {
                assert(front[i] is Failed);
            }
        }
        if children_named(files) is Ok {
            let earlier = children_named(front)->Ok_0;
            if last is Contents {
                lemma_with_children(earlier, words(last->Contents_0), pid);
            }
            if exists|i: int| 0 <= i < front.len() && file_names(#[trigger] front[i], pid) {
                let i = choose|i: int| 0 <= i < front.len() && file_names(#[trigger] front[i], pid);
                assert(file_names(files[i], pid));
            }
            if exists|i: int| 0 <= i < files.len() && file_names(#[trigger] files[i], pid) {
                let i = choose|i: int| 0 <= i < files.len() && file_names(#[trigger] files[i], pid);
                if i < front.len() {
                    assert(file_names(front[i], pid));
                }
            }
        }
    }
}

proof fn lemma_command_end(s: Seq<char>, upto: int)
    requires
        upto < s.len(),
    ensures
        match command_end(s, upto) {
            Some(end) => 0 <= end <= upto && end + 1 < s.len() && s[end] == ')' && s[end + 1]
                == ' ' && forall|j: int|
                end < j <= upto && j + 1 < s.len() ==> !(#[trigger] s[j] == ')' && s[j + 1] == ' '),
            None => forall|j: int|
                0 <= j <= upto && j + 1 < s.len() ==> !(#[trigger] s[j] == ')' && s[j + 1] == ' '),
        },
    decreases upto + 1,
{
    if upto >= 0 {
        lemma_command_end(s, upto - 1);
    }
}

/// A `stat` text tells what stands behind the last `) ` in it: the second field
/// there is the parent and the twentieth the start time, where both are numbers
/// that fit. What stands before makes no difference, the command least of all.
pub proof fn identities_stand_behind_the_command(
    pid: u32,
    before: Seq<char>,
    rest: Seq<char>,
    parent: u32,
    start: u64,
)
    requires
        forall|j: int|
            0 <= j < rest.len() - 1 ==> !(#[trigger] rest[j] == ')' && rest[j + 1] == ' '),
    ensures
        stat_identity(pid, before + seq![')', ' '] + rest) == Ok::<
            (ProcessIdentity, u32),
            Seq<char>,
        >((ProcessIdentity { pid, start_time_ticks: start }, parent)) <==> words(rest).len() >= 20
            && unsigned_value(words(rest)[1]) == Some(parent as nat) && unsigned_value(
            words(rest)[19],
        ) == Some(start as nat),
{
    let s = before + seq![')', ' '] + rest;
    let at = before.len() as int;
    assert(s[at] == ')' && s[at + 1] == ' ');
    lemma_command_end(s, s.len() - 2);
    assert forall|j: int| at < j && j + 1 < s.len() implies !(#[trigger] s[j] == ')' && s[j + 1]
        == ' ') by {
        if j > at + 1 {
            assert(s[j] == rest[j - at - 2]);
            assert(s[j + 1] == rest[j - at - 1]);
        }
    }
    assert(command_end(s, s.len() - 2) == Some(at));
    assert(s.skip(at + 2) =~= rest);
}

/// A line states the process of a thread, in the letters after `Tgid:`.
pub open spec fn states_group(line: Seq<char>, pid: u32) -> bool {
    starts_with(line, "Tgid:"@) && unsigned_value(trim(line.skip("Tgid:"@.len() as int))) == Some(
        pid as nat,
    )
}

pub open spec fn states_any_group(line: Seq<char>) -> bool {
    exists|pid: u32| states_group(line, pid)
}

/// A line states the process, and none before it states one.
pub open spec fn first_states_group(all: Seq<Seq<char>>, i: int, pid: u32) -> bool {
    &&& 0 <= i < all.len()
    &&& states_group(all[i], pid)
    &&& forall|j: int| 0 <= j < i ==> !states_any_group(#[trigger] all[j])
}

proof fn lemma_thread_group_line(line: Seq<char>)
    ensures
        thread_group_line(line) is Some <==> states_any_group(line),
        thread_group_line(line) matches Some(pid) ==> states_group(line, pid),
{
    if thread_group_line(line) is Some {
        assert(states_group(line, thread_group_line(line)->0));
    }
}

proof fn lemma_thread_group(all: Seq<Seq<char>>, pid: u32)
    ensures
        thread_group(all) == Some(pid) <==> exists|i: int| first_states_group(all, i, pid),
    decreases all.len(),
{
    if all.len() > 0 {
        let rest = all.drop_first();
        lemma_thread_group(rest, pid);
        lemma_thread_group_line(all[0]);
        if thread_group(all) == Some(pid) {
            if thread_group_line(all[0]) is Some {
                assert(first_states_group(all, 0, pid));
            } else {
                let i = choose|i: int| first_states_group(rest, i, pid);
                assert forall|j: int| 0 <= j < i + 1 implies !states_any_group(
                    #[trigger] all[j],
                ) by {
                    if j > 0 {
                        assert(rest[j - 1] == all[j]);
                    }
                }
                assert(first_states_group(all, i + 1, pid));
            }
        }
        if exists|i: int| first_states_group(all, i, pid) {
            let i = choose|i: int| first_states_group(all, i, pid);
            if i > 0 {
                assert(!states_any_group(all[0]));
                assert forall|j: int| 0 <= j < i - 1 implies !states_any_group(
                    #[trigger] rest[j],
                ) by {
                    assert(rest[j] == all[j + 1]);
                }
                assert(first_states_group(rest, i - 1, pid));
            } else {
                assert(states_any_group(all[0]));
            }
        }
    }
}

/// The first line of a `status` file that states a process tells whose thread
/// it is; one that is gone belongs to none.
pub proof fn threads_belong_to_the_stated_process(pid: u32, status: FileReadView)
    ensures
        match status {
            FileReadView::Missing => belongs(pid, status) == Ok::<bool, Seq<char>>(false),
            FileReadView::Failed(message) => belongs(pid, status) == Err::<bool, Seq<char>>(
                message,
            ),
            FileReadView::Contents(text) => {
                &&& belongs(pid, status) is Ok
                &&& belongs(pid, status)->Ok_0 <==> exists|i: int|
                    first_states_group(lines(text), i, pid)
            },
        },
{
    if status is Contents {
        lemma_thread_group(lines(status->Contents_0), pid);
    }
}

/// An application was seen as the process that was launched.
pub open spec fn seen_as_launched(one: InitiatedView, seen: IdentityView) -> bool {
    match (one.process_start_time_ticks, seen) {
        (Some(start), IdentityView::Found { identity, .. }) => identity.start_time_ticks == start,
        _ => false,
    }
}

pub open spec fn tree_of(one: InitiatedView, seen: IdentityView, cpus: Seq<u32>) -> TreeView {
    TreeView { desktop_id: one.desktop_id, root: seen->identity, cpus }
}

/// Exactly the applications that were seen as the processes that were launched
/// are taken in, on the CPUs of the plan; each other one is warned of, as long
/// as there are not too many warnings.
pub proof fn launched_processes_are_taken_in(
    all: Seq<InitiatedView>,
    seen: Seq<IdentityView>,
    cpus: Seq<u32>,
    tree: TreeView,
)
    ensures
        enrolled(all, seen, cpus).trees.contains(tree) <==> exists|i: int|
            0 <= i < all.len() && seen_as_launched(#[trigger] all[i], seen_at(seen, i)) && tree
                == tree_of(all[i], seen_at(seen, i), cpus),
        enrolled(all, seen, cpus).trees.len() <= all.len(),
        all.len() <= super::types::MAX_SUPERVISOR_WARNINGS ==> enrolled(
            all,
            seen,
            cpus,
        ).trees.len() + enrolled(all, seen, cpus).warnings.len() == all.len(),
    decreases all.len(),
{
    if all.len() > 0 {
        let front = all.drop_last();
        let at = all.len() - 1;
        let earlier = enrolled(front, seen, cpus);
        let now = enrolled(all, seen, cpus);
        launched_processes_are_taken_in(front, seen, cpus, tree);
        assert(all[at] == all.last());
        assert forall|i: int| 0 <= i < front.len() implies front[i] == all[i] by {}
        if earlier.trees.contains(tree) {
            let j = choose|j: int| 0 <= j < earlier.trees.len() && earlier.trees[j] == tree;
            assert(now.trees[j] == tree);
            let i = choose|i: int|
                0 <= i < front.len() && seen_as_launched(#[trigger] front[i], seen_at(seen, i))
                    && tree == tree_of(front[i], seen_at(seen, i), cpus);
            assert(seen_as_launched(all[i], seen_at(seen, i)));
        }
        if seen_as_launched(all[at], seen_at(seen, at)) {
            assert(now.trees == earlier.trees.push(tree_of(all[at], seen_at(seen, at), cpus)));
            assert(now.trees[now.trees.len() - 1] == tree_of(all[at], seen_at(seen, at), cpus));
        }
        if now.trees.contains(tree) {
            let j = choose|j: int| 0 <= j < now.trees.len() && now.trees[j] == tree;
            if j < earlier.trees.len() {
                assert(earlier.trees[j] == tree);
            }
        }
        if exists|i: int|
            0 <= i < all.len() && seen_as_launched(#[trigger] all[i], seen_at(seen, i)) && tree
                == tree_of(all[i], seen_at(seen, i), cpus) {
            let i = choose|i: int|
                0 <= i < all.len() && seen_as_launched(#[trigger] all[i], seen_at(seen, i)) && tree
                    == tree_of(all[i], seen_at(seen, i), cpus);
            if i < at {
                assert(seen_as_launched(front[i], seen_at(seen, i)));
            }
        }
    }
}

/// The launched applications that are looked for are exactly those whose plan
/// asks for it.
pub proof fn candidates_are_those_asked_for(
    applications: Seq<PlannedView>,
    initiated: Seq<InitiatedView>,
    one: InitiatedView,
)
    ensures
        candidates(applications, initiated).contains(one) <==> exists|k: int|
            0 <= k < applications.len() && (
            #[trigger] applications[k]).policy.enforce_process_tree && initiated_with(
                initiated,
                applications[k].desktop_id,
            ) == Some(one),
        candidates(applications, initiated).len() <= applications.len(),
    decreases applications.len(),
{
    if applications.len() > 0 {
        let front = applications.drop_last();
        let last = applications.last();
        let earlier = candidates(front, initiated);
        let now = candidates(applications, initiated);
        candidates_are_those_asked_for(front, initiated, one);
        assert(applications[applications.len() - 1] == last);
        assert forall|i: int| 0 <= i < front.len() implies front[i] == applications[i] by {}
        if earlier.contains(one) {
            let j = choose|j: int| 0 <= j < earlier.len() && earlier[j] == one;
            assert(now[j] == one);
            let k = choose|k: int|
                0 <= k < front.len() && (#[trigger] front[k]).policy.enforce_process_tree
                    && initiated_with(initiated, front[k].desktop_id) == Some(one);
            assert(applications[k] == front[k]);
        }
        if last.policy.enforce_process_tree && initiated_with(initiated, last.desktop_id) == Some(
            one,
        ) {
            assert(now[now.len() - 1] == one);
        }
        if now.contains(one) {
            let j = choose|j: int| 0 <= j < now.len() && now[j] == one;
            if j < earlier.len() {
                assert(earlier[j] == one);
            }
        }
        if exists|k: int|
            0 <= k < applications.len() && (#[trigger] applications[k]).policy.enforce_process_tree
                && initiated_with(initiated, applications[k].desktop_id) == Some(one) {
            let k = choose|k: int|
                0 <= k < applications.len() && (
                #[trigger] applications[k]).policy.enforce_process_tree && initiated_with(
                    initiated,
                    applications[k].desktop_id,
                ) == Some(one);
            if k < front.len() {
                assert(front[k] == applications[k]);
            }
        }
    }
}

/// An application is found among the launched ones by its ID, the first one
/// where several have it.
pub proof fn launched_applications_are_found_by_id(
    initiated: Seq<InitiatedView>,
    id: Seq<char>,
)
    ensures
        match initiated_with(initiated, id) {
            Some(one) => exists|i: int|
                0 <= i < initiated.len() && #[trigger] initiated[i] == one && one.desktop_id == id
                    && forall|j: int| 0 <= j < i ==> (#[trigger] initiated[j]).desktop_id != id,
            None => forall|j: int|
                0 <= j < initiated.len() ==> (#[trigger] initiated[j]).desktop_id != id,
        },
    decreases initiated.len(),
{
    if initiated.len() > 0 {
        let rest = initiated.drop_first();
        launched_applications_are_found_by_id(rest, id);
        if initiated[0].desktop_id != id {
            match initiated_with(rest, id) {
                Some(one) => {
                    let i = choose|i: int|
                        0 <= i < rest.len() && #[trigger] rest[i] == one && one.desktop_id == id
                            && forall|j: int|
                            0 <= j < i ==> (#[trigger] rest[j]).desktop_id != id;
                    assert forall|j: int| 0 <= j < i + 1 implies (
                    #[trigger] initiated[j]).desktop_id != id by {
                        if j > 0 {
                            assert(rest[j - 1] == initiated[j]);
                        }
                    }
                    assert(initiated[i + 1] == one);
                },
                None => {
                    assert forall|j: int| 0 <= j < initiated.len() implies (
                    #[trigger] initiated[j]).desktop_id != id by {
                        if j > 0 {
                            assert(rest[j - 1] == initiated[j]);
                        }
                    }
                },
            }
        } else {
            assert(initiated[0] == initiated[0]);
        }
    }
}

/// What is launched unconfirmed though its tree is to be kept on its CPUs.
pub open spec fn unconfirmed(plan: LaunchPlanView, one: InitiatedView) -> bool {
    is_enforced(plan.applications, one.desktop_id) && !one.exec_succeeded
}

/// What is launched unidentified though its tree is to be kept on its CPUs.
pub open spec fn unidentified(plan: LaunchPlanView, one: InitiatedView) -> bool {
    is_enforced(plan.applications, one.desktop_id) && one.process_start_time_ticks is None
}

/// Supervision does not begin where an application that it is asked for was
/// not confirmed or not identified, and the first such one is named.
pub proof fn supervision_needs_confirmed_launches(
    plan: LaunchPlanView,
    initiated: Seq<InitiatedView>,
)
    ensures
        match unconfirmed_failure(plan, initiated) {
            None => forall|i: int|
                0 <= i < initiated.len() ==> !unconfirmed(plan, #[trigger] initiated[i]),
            Some(e) => exists|i: int|
                0 <= i < initiated.len() && unconfirmed(plan, #[trigger] initiated[i]) && (forall|
                    j: int,
                |
                    0 <= j < i ==> !unconfirmed(plan, #[trigger] initiated[j])) && e == (
                SupervisorErrorView::UnconfirmedExec {
                    desktop_id: initiated[i].desktop_id,
                    pid: initiated[i].pid,
                }),
        },
        match unidentified_failure(plan, initiated) {
            None => forall|i: int|
                0 <= i < initiated.len() ==> !unidentified(plan, #[trigger] initiated[i]),
            Some(e) => exists|i: int|
                0 <= i < initiated.len() && unidentified(plan, #[trigger] initiated[i]) && (forall|
                    j: int,
                |
                    0 <= j < i ==> !unidentified(plan, #[trigger] initiated[j])) && e == (
                SupervisorErrorView::MissingLaunchIdentity {
                    desktop_id: initiated[i].desktop_id,
                    pid: initiated[i].pid,
                }),
        },
    decreases initiated.len(),
{
    if initiated.len() > 0 {
        let rest = initiated.drop_first();
        supervision_needs_confirmed_launches(plan, rest);
        assert forall|j: int| 0 < j < initiated.len() implies #[trigger] initiated[j] == rest[j
            - 1] by {}
        if !unconfirmed(plan, initiated[0]) {
            if unconfirmed_failure(plan, rest) is Some {
                let i = choose|i: int|
                    0 <= i < rest.len() && unconfirmed(plan, #[trigger] rest[i]) && (forall|
                        j: int,
                    |
                        0 <= j < i ==> !unconfirmed(plan, #[trigger] rest[j]))
                        && unconfirmed_failure(plan, rest)->0 == (
                    SupervisorErrorView::UnconfirmedExec {
                        desktop_id: rest[i].desktop_id,
                        pid: rest[i].pid,
                    });
                assert(unconfirmed(plan, initiated[i + 1]));
            }
        } else {
            assert(unconfirmed(plan, initiated[0]));
        }
        if !unidentified(plan, initiated[0]) {
            if unidentified_failure(plan, rest) is Some {
                let i = choose|i: int|
                    0 <= i < rest.len() && unidentified(plan, #[trigger] rest[i]) && (forall|
                        j: int,
                    |
                        0 <= j < i ==> !unidentified(plan, #[trigger] rest[j]))
                        && unidentified_failure(plan, rest)->0 == (
                    SupervisorErrorView::MissingLaunchIdentity {
                        desktop_id: rest[i].desktop_id,
                        pid: rest[i].pid,
                    });
                assert(unidentified(plan, initiated[i + 1]));
            }
        } else {
            assert(unidentified(plan, initiated[0]));
        }
    }
}

/// The processes to reap are exactly those that were launched, and as many
/// roots are reported as trees are watched.
pub proof fn launched_processes_are_reaped(
    plan: LaunchPlanView,
    initiated: Seq<InitiatedView>,
    seen: Seq<IdentityView>,
    pid: u32,
)
    ensures
        supervision(plan, initiated, seen).child_pids.contains(pid) <==> exists|i: int|
            0 <= i < initiated.len() && (#[trigger] initiated[i]).pid == pid,
        supervision(plan, initiated, seen).trees == enrolled(
            candidates(plan.applications, initiated),
            seen,
            plan.efficiency_cpus,
        ).trees,
        supervision(plan, initiated, seen).report.affinity_updates == 0,
        supervision(plan, initiated, seen).report.completed_roots == 0,
        supervision(plan, initiated, seen).report.polls == 0,
{
    let pids = initiated.map_values(initiated_pid());
    lemma_sorted_set(pids);
    if exists|i: int| 0 <= i < initiated.len() && (#[trigger] initiated[i]).pid == pid {
        let i = choose|i: int| 0 <= i < initiated.len() && (#[trigger] initiated[i]).pid == pid;
        assert(pids[i] == pid);
        assert(pids.contains(pid));
    }
    if pids.contains(pid) {
        let i = choose|i: int| 0 <= i < pids.len() && pids[i] == pid;
        assert(initiated[i].pid == pid);
    }
}

/// `/proc` can be used for supervision exactly where it is a directory in which
/// the process finds its own data and that of its children.
pub open spec fn procfs_usable(procfs: ProcfsState) -> bool {
    procfs.root is Directory && procfs.self_stat is None && procfs.self_children is None
}

/// Supervision begins exactly where the interval is long enough, no launch that
/// it is asked for is unconfirmed, and either it is asked for none, or `/proc`
/// can be used and each is identified.
pub proof fn supervision_begins_where_all_is_known(
    plan: LaunchPlanView,
    initiated: Seq<InitiatedView>,
    poll_interval_nanos: u128,
    root: Seq<u8>,
    procfs: ProcfsState,
)
    ensures
        supervision_failure(plan, initiated, poll_interval_nanos, root, procfs) is None <==> {
            &&& poll_interval_nanos >= MINIMUM_POLL_INTERVAL_NANOS
            &&& forall|i: int|
                0 <= i < initiated.len() ==> !unconfirmed(plan, #[trigger] initiated[i])
            &&& (forall|i: int|
                0 <= i < initiated.len() ==> !is_enforced(
                    plan.applications,
                    (#[trigger] initiated[i]).desktop_id,
                )) || (procfs_usable(procfs) && forall|i: int|
                0 <= i < initiated.len() ==> !unidentified(plan, #[trigger] initiated[i]))
        },
{
    supervision_needs_confirmed_launches(plan, initiated);
}

/// While no signal comes and a tree is left, a session goes round: it looks for
/// a signal, polls and sleeps. A signal, or the end of the last tree, ends it
/// with the report as it is.
pub proof fn sessions_go_round(supervisor: SupervisorView, signal: Seq<char>)
    requires
        supervisor.trees.len() > 0,
    ensures
        ({
            let look = SessionView::start(supervisor).next(SessionEvent::Succeeded);
            let poll = look.next(SessionEvent::Signal(None));
            let ended = look.next(SessionEvent::Signal(Some(signal)));
            let asleep = poll.next(SessionEvent::Polled(supervisor));
            let gone = SupervisorView { trees: Seq::empty(), ..supervisor };
            &&& look is CheckSignal
            &&& poll == SessionView::Poll(supervisor)
            &&& asleep == SessionView::Sleep(supervisor)
            &&& asleep.next(SessionEvent::Succeeded) == look
            &&& poll.next(SessionEvent::Polled(gone)) == SessionView::Finished(supervisor.report)
            &&& ended matches SessionView::Finished(report) && report.termination_signal == Some(
                signal,
            ) && report.tracked_roots == supervisor.report.tracked_roots && report.completed_roots
                == supervisor.report.completed_roots && report.polls == supervisor.report.polls
                && report.affinity_updates == supervisor.report.affinity_updates && report.warnings
                == supervisor.report.warnings
        }),
{
}

/// An application that is not taken in is warned of by its ID and number.
pub proof fn applications_left_out_are_warned_of(
    all: Seq<InitiatedView>,
    seen: Seq<IdentityView>,
    cpus: Seq<u32>,
    i: int,
)
    requires
        0 <= i < all.len() <= MAX_SUPERVISOR_WARNINGS,
        !seen_as_launched(all[i], seen_at(seen, i)),
    ensures
        exists|k: int|
            0 <= k < enrolled(all, seen, cpus).warnings.len() && {
                let warning = #[trigger] enrolled(all, seen, cpus).warnings[k];
                warning.desktop_id == all[i].desktop_id && warning.pid == Some(all[i].pid)
            },
    decreases all.len(),
{
    let front = all.drop_last();
    let earlier = enrolled(front, seen, cpus).warnings;
    let now = enrolled(all, seen, cpus).warnings;
    launched_processes_are_taken_in(
        front,
        seen,
        cpus,
        tree_of(all[i], seen_at(seen, i), cpus),
    );
    assert(earlier.len() <= front.len());
    if i < front.len() {
        assert(front[i] == all[i]);
        applications_left_out_are_warned_of(front, seen, cpus, i);
        let k = choose|k: int|
            0 <= k < earlier.len() && {
                let warning = #[trigger] earlier[k];
                warning.desktop_id == front[i].desktop_id && warning.pid == Some(front[i].pid)
            };
        assert(now[k] == earlier[k]);
    } else {
        assert(all[i] == all.last());
        assert(now[now.len() - 1].desktop_id == all[i].desktop_id);
    }
}

/// What is seen of a process is what its `stat` file tells; a file that tells
/// nothing is a failure, and none at all means that the process is gone.
pub proof fn processes_are_seen_by_their_stat(pid: u32, stat: FileReadView)
    ensures
        identity_from(pid, stat) is Missing <==> stat is Missing,
        identity_from(pid, stat) matches IdentityView::Found { identity, parent } ==> (
        stat matches FileReadView::Contents(text) && stat_identity(pid, text) == Ok::<
            (ProcessIdentity, u32),
            Seq<char>,
        >((identity, parent))) && identity.pid == pid,
        stat matches FileReadView::Contents(text) ==> (identity_from(pid, stat) is Found
            <==> stat_identity(pid, text) is Ok),
{
}

/// CPUs can be enforced exactly where there is one and each fits into an
/// affinity set; else the first that does not is named.
pub proof fn enforced_cpus_fit(cpus: Seq<u32>)
    ensures
        enforced_failure(cpus) is None <==> cpus.len() > 0 && forall|k: int|
            0 <= k < cpus.len() ==> #[trigger] cpus[k] < 1024,
        cpus.len() == 0 <==> enforced_failure(cpus) == Some(SupervisorErrorView::EmptyAffinity),
        cpus.len() > 0 && enforced_failure(cpus) is Some ==> exists|k: int|
            0 <= k < cpus.len() && #[trigger] cpus[k] >= 1024 && (forall|j: int|
                0 <= j < k ==> #[trigger] cpus[j] < 1024) && (enforced_failure(
                cpus,
            )->0 matches SupervisorErrorView::InvalidAffinityCpu { cpu, .. } && cpu == cpus[k]),
{
    affinity_sets_hold_what_fits(cpus);
}

} // verus!
