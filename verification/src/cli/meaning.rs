//! What answers and keys come to.
use vstd::prelude::*;

use super::adjust::{adjusted, class_position, cpu_runs, following, moved, truncated};
use super::present::skipped_count;
use super::select::{
    applications_at, asked_options, picked, removal_obstacle, requested_applications, selection,
    status_with, LineRead,
};
use super::tui::{
    candidate_before, candidates_among, is_new, toggled, CommandView, DraftView, Key, PendingView,
    Screen, StateView, TuiOutcome,
};
use crate::discovery::scanner::OptionsView;
use crate::discovery::types::{ApplicationView, DiscoveredApplication, WarningView};
use crate::launcher::plan::discovered_with;
use crate::order::{ascending, lemma_filter_holds, lemma_sorted_holds};
use crate::registry::error::RegistryErrorView;
use crate::registry::meaning::takes_priority;
use crate::registry::model::{PolicyView, RegisteredView};
use crate::registry::operations::{updated_policy, AvailabilityView};
use crate::registry::validation::id_taken;
use crate::text::{split, trim, unsigned_value, views};

verus! {

/// A part of an answer names a position, counted from one.
pub open spec fn names_position(part: Seq<char>, position: nat) -> bool {
    trim(part).len() > 0 && unsigned_value(trim(part)) == Some(position)
}

/// A part of an answer is empty or names a position up to a count.
pub open spec fn sound_part(part: Seq<char>, count: nat) -> bool {
    trim(part).len() == 0 || (unsigned_value(trim(part)) is Some && 1 <= unsigned_value(
        trim(part),
    )->0 <= count)
}

proof fn lemma_picked(values: Seq<Seq<char>>, count: nat, position: nat)
    ensures
        picked(values, count) is Ok <==> forall|k: int|
            0 <= k < values.len() ==> sound_part(#[trigger] values[k], count),
        picked(values, count) matches Ok(picks) ==> {
            &&& picks.contains(position) <==> exists|k: int|
                0 <= k < values.len() && names_position(#[trigger] values[k], position)
            &&& picks.len() == 0 <==> forall|k: int|
                0 <= k < values.len() ==> trim(#[trigger] values[k]).len() == 0
        },
    decreases values.len(),
{
    if values.len() > 0 {
        let front = values.drop_last();
        let last = values.last();
        lemma_picked(front, count, position);
        assert(values[values.len() - 1] == last);
        assert forall|k: int| 0 <= k < front.len() implies front[k] == values[k] by {}
        if picked(values, count) is Ok {
            let earlier = picked(front, count)->Ok_0;
            let picks = picked(values, count)->Ok_0;
            assert forall|k: int| 0 <= k < values.len() implies sound_part(
                #[trigger] values[k],
                count,
            ) by {
                if k < front.len() {
                    assert(sound_part(front[k], count));
                }
            }
            if earlier.contains(position) {
                let j = choose|j: int| 0 <= j < earlier.len() && earlier[j] == position;
                assert(picks[j] == position);
                let k = choose|k: int|
                    0 <= k < front.len() && names_position(#[trigger] front[k], position);
                assert(names_position(values[k], position));
            }
            if names_position(last, position) {
                assert(picks[picks.len() - 1] == position);
            }
            if picks.contains(position) {
                let j = choose|j: int| 0 <= j < picks.len() && picks[j] == position;
                if j < earlier.len() {
                    assert(earlier[j] == position);
                }
            }
            if exists|k: int| 0 <= k < values.len() && names_position(#[trigger] values[k], position) {
                let k = choose|k: int|
                    0 <= k < values.len() && names_position(#[trigger] values[k], position);
                if k < front.len() {
                    assert(names_position(front[k], position));
                }
            }
            if picks.len() == 0 {
                assert forall|k: int| 0 <= k < values.len() implies trim(
                    #[trigger] values[k],
                ).len() == 0 by {
                    if k < front.len() {
                        assert(trim(front[k]).len() == 0);
                    }
                }
            }
            if forall|k: int| 0 <= k < values.len() ==> trim(#[trigger] values[k]).len() == 0 {
                assert forall|k: int| 0 <= k < front.len() implies trim(
                    #[trigger] front[k],
                ).len() == 0 by {
                    assert(trim(values[k]).len() == 0);
                }
                assert(trim(last).len() == 0);
            }
        }
        if forall|k: int| 0 <= k < values.len() ==> sound_part(#[trigger] values[k], count) {
            assert forall|k: int| 0 <= k < front.len() implies sound_part(
                #[trigger] front[k],
                count,
            ) by {
                assert(sound_part(values[k], count));
            }
            assert(sound_part(last, count));
        }
    }
}

proof fn lemma_applications_at(all: Seq<ApplicationView>, picks: Seq<nat>, one: ApplicationView)
    ensures
        applications_at(all, picks).contains(one) <==> exists|i: int|
            0 <= i < all.len() && #[trigger] all[i] == one && picks.contains((i + 1) as nat),
        applications_at(all, picks).len() <= all.len(),
    decreases all.len(),
{
    if all.len() > 0 {
        let front = all.drop_last();
        let earlier = applications_at(front, picks);
        let now = applications_at(all, picks);
        lemma_applications_at(front, picks, one);
        assert(all[all.len() - 1] == all.last());
        assert forall|i: int| 0 <= i < front.len() implies front[i] == all[i] by {}
        if earlier.contains(one) {
            let j = choose|j: int| 0 <= j < earlier.len() && earlier[j] == one;
            assert(now[j] == one);
            let i = choose|i: int|
                0 <= i < front.len() && #[trigger] front[i] == one && picks.contains(
                    (i + 1) as nat,
                );
            assert(all[i] == one);
        }
        if picks.contains(all.len()) {
            assert(now[now.len() - 1] == all.last());
        }
        if now.contains(one) {
            let j = choose|j: int| 0 <= j < now.len() && now[j] == one;
            if j < earlier.len() {
                assert(earlier[j] == one);
            } else {
                assert(all[all.len() - 1] == one);
            }
        }
        if exists|i: int|
            0 <= i < all.len() && #[trigger] all[i] == one && picks.contains((i + 1) as nat) {
            let i = choose|i: int|
                0 <= i < all.len() && #[trigger] all[i] == one && picks.contains((i + 1) as nat);
            if i < front.len() {
                assert(front[i] == one);
            }
        }
    }
}

/// An answer chooses exactly the applications at the positions that it names
/// between commas. It is accepted where it names one and nothing else but
/// blanks.
pub proof fn answers_choose_what_they_name(
    all: Seq<ApplicationView>,
    line: Seq<char>,
    one: ApplicationView,
)
    ensures
        ({
            let parts = split(trim(line), ',');
            &&& selection(all, line) matches Ok(chosen) ==> (chosen.contains(one) <==> exists|
                i: int,
                k: int,
            |
                0 <= i < all.len() && 0 <= k < parts.len() && #[trigger] all[i] == one
                    && names_position(#[trigger] parts[k], (i + 1) as nat))
            &&& selection(all, line) is Ok <==> trim(line).len() > 0 && (forall|k: int|
                0 <= k < parts.len() ==> sound_part(#[trigger] parts[k], all.len())) && exists|
                k: int,
            |
                0 <= k < parts.len() && trim(#[trigger] parts[k]).len() > 0
        }),
{
    let parts = split(trim(line), ',');
    lemma_picked(parts, all.len(), 0);
    if selection(all, line) is Ok {
        let picks = picked(parts, all.len())->Ok_0;
        let chosen = selection(all, line)->Ok_0;
        lemma_applications_at(all, picks, one);
        if chosen.contains(one) {
            let i = choose|i: int|
                0 <= i < all.len() && #[trigger] all[i] == one && picks.contains((i + 1) as nat);
            lemma_picked(parts, all.len(), (i + 1) as nat);
            let k = choose|k: int|
                0 <= k < parts.len() && names_position(#[trigger] parts[k], (i + 1) as nat);
            assert(all[i] == one && names_position(parts[k], (i + 1) as nat));
        }
        if exists|i: int, k: int|
            0 <= i < all.len() && 0 <= k < parts.len() && #[trigger] all[i] == one
                && names_position(#[trigger] parts[k], (i + 1) as nat) {
            let (i, k) = choose|i: int, k: int|
                0 <= i < all.len() && 0 <= k < parts.len() && #[trigger] all[i] == one
                    && names_position(#[trigger] parts[k], (i + 1) as nat);
            lemma_picked(parts, all.len(), (i + 1) as nat);
        }
    }
}

/// What was asked for by ID is found, one application for each ID and in the
/// order of the IDs; or the first ID that none has is named.
pub proof fn requests_are_met_in_order(current: Seq<ApplicationView>, ids: Seq<Seq<char>>)
    ensures
        match requested_applications(current, ids) {
            Ok(found) => found.len() == ids.len() && forall|k: int|
                0 <= k < ids.len() ==> discovered_with(current, #[trigger] ids[k]) == Some(
                    found[k],
                ),
            Err(e) => exists|k: int|
                0 <= k < ids.len() && discovered_with(current, #[trigger] ids[k]) is None && e == (
                RegistryErrorView::UnknownDiscoveredApplication { desktop_id: ids[k] })
                    && forall|j: int|
                    0 <= j < k ==> discovered_with(current, #[trigger] ids[j]) is Some,
        },
    decreases ids.len(),
{
    if ids.len() > 0 {
        let front = ids.drop_last();
        requests_are_met_in_order(current, front);
        assert(ids[ids.len() - 1] == ids.last());
        assert forall|k: int| 0 <= k < front.len() implies front[k] == ids[k] by {}
        match requested_applications(current, front) {
            Ok(earlier) => {
                assert forall|j: int| 0 <= j < front.len() implies discovered_with(
                    current,
                    #[trigger] ids[j],
                ) == Some(earlier[j]) by {
                    assert(front[j] == ids[j]);
                }
            },
            Err(e) => {
                let k = choose|k: int|
                    0 <= k < front.len() && discovered_with(current, #[trigger] front[k]) is None
                        && e == (RegistryErrorView::UnknownDiscoveredApplication {
                        desktop_id: front[k],
                    }) && forall|j: int|
                        0 <= j < k ==> discovered_with(current, #[trigger] front[j]) is Some;
                assert forall|j: int| 0 <= j < k implies discovered_with(
                    current,
                    #[trigger] ids[j],
                ) is Some by {
                    assert(front[j] == ids[j]);
                }
                assert(discovered_with(current, ids[k]) is None);
            },
        }
    }
}

/// A removal is confirmed exactly where a line was read from a terminal that
/// says yes, in one letter or in three.
pub proof fn only_yes_confirms(terminal: bool, read: LineRead)
    ensures
        removal_obstacle(terminal, read) is None <==> terminal && (
        read matches LineRead::Line(line) && seq!["y"@, "Y"@, "yes"@, "YES"@].contains(
            trim(line@),
        )),
        terminal && read is Line && removal_obstacle(terminal, read) is Some ==> removal_obstacle(
            terminal,
            read,
        ) == Some(RegistryErrorView::InteractiveCanceled),
        !terminal ==> removal_obstacle(terminal, read) == Some(
            RegistryErrorView::InteractiveInputUnavailable,
        ),
{
    let yes = seq!["y"@, "Y"@, "yes"@, "YES"@];
    assert(yes[0] == "y"@ && yes[1] == "Y"@ && yes[2] == "yes"@ && yes[3] == "YES"@);
}

/// The application with an ID is the first that has it.
pub proof fn shown_applications_have_the_id(
    all: Seq<(RegisteredView, AvailabilityView)>,
    id: Seq<char>,
)
    ensures
        match status_with(all, id) {
            Some(found) => found.0.desktop_id == id && all.contains(found),
            None => forall|k: int| 0 <= k < all.len() ==> (#[trigger] all[k]).0.desktop_id != id,
        },
    decreases all.len(),
{
    if all.len() > 0 {
        let rest = all.drop_first();
        shown_applications_have_the_id(rest, id);
        if all[0].0.desktop_id != id {
            match status_with(rest, id) {
                Some(found) => {
                    let k = choose|k: int| 0 <= k < rest.len() && rest[k] == found;
                    assert(all[k + 1] == found);
                },
                None => {
                    assert forall|k: int| 0 <= k < all.len() implies (
                    #[trigger] all[k]).0.desktop_id != id by {
                        if k > 0 {
                            assert(rest[k - 1] == all[k]);
                        }
                    }
                },
            }
        } else {
            assert(all.contains(all[0]));
        }
    }
}

/// A run goes over a CPU.
pub open spec fn runs_over(run: (u32, u32), cpu: u32) -> bool {
    run.0 <= cpu <= run.1
}

/// The runs of CPUs in order go over exactly these CPUs, and there is a gap
/// between each two of them.
pub proof fn runs_cover_the_cpus(cpus: Seq<u32>, cpu: u32)
    requires
        ascending(cpus),
    ensures
        cpus.contains(cpu) <==> exists|k: int|
            0 <= k < cpu_runs(cpus).len() && runs_over(#[trigger] cpu_runs(cpus)[k], cpu),
        cpus.len() > 0 ==> cpu_runs(cpus).len() > 0 && cpu_runs(cpus).last().1 == cpus.last(),
        forall|k: int|
            0 <= k < cpu_runs(cpus).len() ==> (#[trigger] cpu_runs(cpus)[k]).0 <= cpu_runs(
                cpus,
            )[k].1,
        forall|k: int, m: int|
            0 <= k < m < cpu_runs(cpus).len() ==> (#[trigger] cpu_runs(cpus)[k]).1 + 1 < (
            #[trigger] cpu_runs(cpus)[m]).0,
    decreases cpus.len(),
{
    if cpus.len() > 0 {
        let front = cpus.drop_last();
        let last = cpus.last();
        let earlier = cpu_runs(front);
        let now = cpu_runs(cpus);
        assert(ascending(front)) by {
            assert forall|i: int, j: int| 0 <= i < j < front.len() implies front[i] < front[j] by {
                assert(cpus[i] < cpus[j]);
            }
        }
        runs_cover_the_cpus(front, cpu);
        assert(cpus.contains(cpu) <==> front.contains(cpu) || cpu == last) by {
            if cpus.contains(cpu) {
                let i = choose|i: int| 0 <= i < cpus.len() && cpus[i] == cpu;
                if i < front.len() {
                    assert(front[i] == cpu);
                }
            }
            if front.contains(cpu) {
                let i = choose|i: int| 0 <= i < front.len() && front[i] == cpu;
                assert(cpus[i] == cpu);
            }
            assert(cpus[cpus.len() - 1] == last);
        }
        if front.len() > 0 {
            assert(front.last() == cpus[cpus.len() - 2]);
            assert(front.last() < last);
            let open = earlier.last();
            let at = earlier.len() - 1;
            assert(earlier[at] == open);
            if last == following(open.1) {
                assert(now == earlier.drop_last().push((open.0, last)));
                assert(now[at] == (open.0, last));
                assert forall|k: int| 0 <= k < at implies #[trigger] now[k] == earlier[k] by {}
                if exists|k: int| 0 <= k < earlier.len() && runs_over(#[trigger] earlier[k], cpu) {
                    let k = choose|k: int|
                        0 <= k < earlier.len() && runs_over(#[trigger] earlier[k], cpu);
                    assert(runs_over(now[k], cpu));
                }
                if cpu == last {
                    assert(runs_over(now[at], cpu));
                }
                if exists|k: int| 0 <= k < now.len() && runs_over(#[trigger] now[k], cpu) {
                    let k = choose|k: int| 0 <= k < now.len() && runs_over(#[trigger] now[k], cpu);
                    if cpu != last {
                        assert(runs_over(earlier[k], cpu));
                    }
                }
            } else {
                lemma_run_is_new(earlier, now, last, cpu);
            }
        } else {
            assert(earlier.len() == 0);
            assert(now =~= seq![(last, last)]);
            assert(now[0] == (last, last));
            if cpu == last {
                assert(runs_over(now[0], cpu));
            }
        }
    }
}

proof fn lemma_run_is_new(earlier: Seq<(u32, u32)>, now: Seq<(u32, u32)>, last: u32, cpu: u32)
    requires
        now == earlier.push((last, last)),
        earlier.len() > 0,
        earlier.last().1 + 1 < last,
        forall|k: int| 0 <= k < earlier.len() ==> (#[trigger] earlier[k]).0 <= earlier[k].1,
        forall|k: int, m: int|
            0 <= k < m < earlier.len() ==> (#[trigger] earlier[k]).1 + 1 < (
            #[trigger] earlier[m]).0,
    ensures
        (exists|k: int| 0 <= k < now.len() && runs_over(#[trigger] now[k], cpu)) <==> cpu == last
            || exists|k: int| 0 <= k < earlier.len() && runs_over(#[trigger] earlier[k], cpu),
        forall|k: int| 0 <= k < now.len() ==> (#[trigger] now[k]).0 <= now[k].1,
        forall|k: int, m: int|
            0 <= k < m < now.len() ==> (#[trigger] now[k]).1 + 1 < (#[trigger] now[m]).0,
{
    let at = earlier.len() as int;
    assert(now[at] == (last, last));
    assert forall|k: int| 0 <= k < at implies #[trigger] now[k] == earlier[k] by {}
    assert forall|k: int, m: int| 0 <= k < m < now.len() implies (#[trigger] now[k]).1 + 1 < (
    #[trigger] now[m]).0 by {
        if m == at {
            if k < at - 1 {
                assert(earlier[k].1 + 1 < earlier[at - 1].0);
                assert(earlier[at - 1].0 <= earlier[at - 1].1);
            }
        } else {
            assert(earlier[k].1 + 1 < earlier[m].0);
        }
    }
    if exists|k: int| 0 <= k < earlier.len() && runs_over(#[trigger] earlier[k], cpu) {
        let k = choose|k: int| 0 <= k < earlier.len() && runs_over(#[trigger] earlier[k], cpu);
        assert(runs_over(now[k], cpu));
    }
    if cpu == last {
        assert(runs_over(now[at], cpu));
    }
    if exists|k: int| 0 <= k < now.len() && runs_over(#[trigger] now[k], cpu) {
        let k = choose|k: int| 0 <= k < now.len() && runs_over(#[trigger] now[k], cpu);
        if k < at {
            assert(runs_over(earlier[k], cpu));
        }
    }
}

/// A truncated text has at most the characters that there is room for, one at
/// least where it is cut, and begins as the text does; one for which there is
/// room stays as it is.
pub proof fn truncated_texts_begin_alike(value: Seq<char>, room: int)
    requires
        room >= 1,
    ensures
        truncated(value, room).len() <= room,
        value.len() <= room ==> truncated(value, room) == value,
        value.len() > room ==> truncated(value, room).len() == room && truncated(
            value,
            room,
        ).drop_last() == value.take(room - 1) && truncated(value, room).last() == '…',
{
    if value.len() > room {
        assert(truncated(value, room).drop_last() =~= value.take(room - 1));
    }
}

/// A move within a list stays in it, goes as far as asked where there is room,
/// and else to the end.
pub proof fn moves_stay_in_the_list(current: int, len: int, delta: int)
    requires
        0 <= current < len,
    ensures
        0 <= moved(current, len, delta) < len,
        0 <= current + delta < len ==> moved(current, len, delta) == current + delta,
        current + delta >= len ==> moved(current, len, delta) == len - 1,
        current + delta < 0 ==> moved(current, len, delta) == 0,
{
}

/// A step goes as far as asked where there is room, and else to the bound; a
/// step back takes it back where it was a whole one.
pub proof fn steps_stay_within_bounds(value: int, step: int, min: int, max: int)
    requires
        min <= value <= max,
        step > 0,
    ensures
        min <= adjusted(value, 1, step, min, max) <= max,
        min <= adjusted(value, -1, step, min, max) <= max,
        value + step <= max ==> adjusted(value, 1, step, min, max) == value + step,
        value + step > max ==> adjusted(value, 1, step, min, max) == max,
        value - step >= min ==> adjusted(value, -1, step, min, max) == value - step,
        value - step < min ==> adjusted(value, -1, step, min, max) == min,
        value + step <= max ==> adjusted(
            adjusted(value, 1, step, min, max),
            -1,
            step,
            min,
            max,
        ) == value,
{
}

/// Two policies differ in one setting at most, the one at a position; with the
/// class the priority may change too.
pub open spec fn differ_at(field: int, a: PolicyView, b: PolicyView) -> bool {
    &&& field != 0 ==> a.delay_seconds == b.delay_seconds
    &&& field != 1 ==> a.nice == b.nice
    &&& field != 2 ==> a.io_class == b.io_class
    &&& field != 2 && field != 3 ==> a.io_priority == b.io_priority
    &&& field != 4 ==> a.enforce_process_tree == b.enforce_process_tree
}

/// Adjusting a draft changes the setting that is edited and no other: delays by
/// one second or by ten up to an hour, nice values by one or by five between
/// -20 and 19, priorities by one between 0 and 7, and the flag to its contrary.
pub proof fn adjusting_changes_the_edited_setting(draft: DraftView, up: bool, coarse: bool)
    requires
        draft.field < 5,
        draft.policy.delay_seconds <= 3600,
        -20 <= draft.policy.nice <= 19,
        takes_priority(draft.policy.io_class) ==> draft.policy.io_priority is Some
            && draft.policy.io_priority->0 <= 7,
    ensures
        ({
            let delta: int = if up {
                1
            } else {
                -1
            };
            let after = draft.with_adjusted(delta, coarse);
            let delay = draft.policy.delay_seconds + delta * (if coarse {
                10int
            } else {
                1
            });
            let nice = draft.policy.nice + delta * (if coarse {
                5int
            } else {
                1
            });
            &&& differ_at(draft.field as int, draft.policy, after.policy)
            &&& after.field == draft.field && after.desktop_id == draft.desktop_id
            &&& !after.reset_to_defaults
            &&& draft.field == 0 && 0 <= delay <= 3600 ==> after.policy.delay_seconds == delay
            &&& draft.field == 0 && delay > 3600 ==> after.policy.delay_seconds == 3600
            &&& draft.field == 0 && delay < 0 ==> after.policy.delay_seconds == 0
            &&& draft.field == 1 && -20 <= nice <= 19 ==> after.policy.nice == nice
            &&& draft.field == 1 && nice > 19 ==> after.policy.nice == 19
            &&& draft.field == 1 && nice < -20 ==> after.policy.nice == -20
            &&& draft.field == 2 ==> after.policy.io_class != draft.policy.io_class && (
            after.policy.io_priority is Some <==> takes_priority(after.policy.io_class))
            &&& draft.field == 3 && takes_priority(draft.policy.io_class) ==> {
                let level = draft.policy.io_priority->0 + delta;
                &&& after.policy.io_priority is Some
                &&& 0 <= level <= 7 ==> after.policy.io_priority->0 == level
                &&& level > 7 ==> after.policy.io_priority->0 == 7
                &&& level < 0 ==> after.policy.io_priority->0 == 0
            }
            &&& draft.field == 3 && !takes_priority(draft.policy.io_class) ==> after.policy
                == draft.policy
            &&& draft.field == 4 ==> after.policy.enforce_process_tree
                == !draft.policy.enforce_process_tree
        }),
{
    let position = class_position(draft.policy.io_class);
    assert((position + 1) % 4 != position && (position - 1) % 4 != position);
}

/// Stepping the class up and down again gives it back, and four steps lead
/// through every class.
pub proof fn classes_go_round(draft: DraftView, coarse: bool)
    requires
        draft.field == 2,
    ensures
        ({
            let one = draft.with_adjusted(1, coarse);
            let two = one.with_adjusted(1, coarse);
            let three = two.with_adjusted(1, coarse);
            let class = draft.policy.io_class;
            &&& one.with_adjusted(-1, coarse).policy.io_class == class
            &&& three.with_adjusted(1, coarse).policy.io_class == class
            &&& class != one.policy.io_class && class != two.policy.io_class && class
                != three.policy.io_class
            &&& one.policy.io_class != two.policy.io_class && one.policy.io_class
                != three.policy.io_class && two.policy.io_class != three.policy.io_class
        }),
{
}

/// The field that is edited goes round: up takes down back, and there are five.
pub proof fn fields_go_round(draft: DraftView)
    requires
        draft.field < 5,
    ensures
        draft.with_field_moved(1).with_field_moved(-1) == draft,
        draft.with_field_moved(-1).with_field_moved(1) == draft,
        draft.field < 4 ==> draft.with_field_moved(1).field == draft.field + 1,
        draft.field == 4 ==> draft.with_field_moved(1).field == 0,
        draft.field == 0 ==> draft.with_field_moved(-1).field == 4,
{
}

/// Saving a draft gives the application the settings of the draft, or where
/// the draft is a reset, the launcher's own.
pub proof fn saved_drafts_are_the_settings(
    draft: DraftView,
    before: PolicyView,
    defaults: PolicyView,
)
    requires
        draft.policy.io_priority is Some <==> takes_priority(draft.policy.io_class),
    ensures
        draft.reset_to_defaults ==> updated_policy(before, draft.update(), defaults) == defaults,
        !draft.reset_to_defaults ==> differ_at(
            5,
            updated_policy(before, draft.update(), defaults),
            draft.policy,
        ),
{
}

/// Toggling an application puts it among the chosen ones or takes it out, and
/// leaves the others as they are.
pub proof fn toggling_changes_one_choice(chosen: Seq<Seq<char>>, id: Seq<char>, other: Seq<char>)
    ensures
        toggled(chosen, id).contains(id) <==> !chosen.contains(id),
        other != id ==> (toggled(chosen, id).contains(other) <==> chosen.contains(other)),
{
    broadcast use {
        vstd::seq_lib::group_filter_ensures,
        Seq::lemma_filter_contains_rev,
    };

    if chosen.contains(id) {
        let after = toggled(chosen, id);
        if after.contains(id) {
            let i = choose|i: int| 0 <= i < after.len() && after[i] == id;
            assert(after[i] != id);
        }
        if chosen.contains(other) && other != id {
            let i = choose|i: int| 0 <= i < chosen.len() && chosen[i] == other;
            assert(after.contains(chosen[i]));
        }
    } else {
        let after = chosen.push(id);
        assert(after[after.len() - 1] == id);
        if chosen.contains(other) {
            let i = choose|i: int| 0 <= i < chosen.len() && chosen[i] == other;
            assert(after[i] == other);
        }
        if after.contains(other) && other != id {
            let i = choose|i: int| 0 <= i < after.len() && after[i] == other;
            assert(chosen[i] == other);
        }
    }
}

/// What is added is what was chosen: the candidates whose IDs were toggled in.
pub proof fn chosen_candidates_are_added(state: StateView, coarse: bool, one: ApplicationView)
    requires
        state.screen == Screen::Add,
        state.chosen.len() > 0,
    ensures
        state.on_key(Key::Enter, coarse).1 matches CommandView::Add(added) && (added.contains(one)
            <==> state.candidates.contains(one) && state.chosen.contains(one.desktop_id)),
{
    let keep = |a: ApplicationView| state.chosen.contains(a.desktop_id);
    lemma_filter_holds(state.candidates, keep, one);
}

/// What can be added is exactly what was found and is not registered.
pub proof fn candidates_are_not_registered(
    found: Seq<ApplicationView>,
    apps: Seq<RegisteredView>,
    one: ApplicationView,
)
    ensures
        candidates_among(found, apps).contains(one) <==> found.contains(one) && !id_taken(
            apps,
            one.desktop_id,
        ),
{
    lemma_filter_holds(found, is_new(apps), one);
    lemma_sorted_holds(found.filter(is_new(apps)), candidate_before(), one);
}

/// On the dashboard the space bar asks for the contrary of the selected
/// application's flag, and starting is asked for only where the selected
/// application is enabled.
pub proof fn dashboard_acts_on_the_selected(state: StateView, coarse: bool)
    requires
        state.screen == Screen::Dashboard,
        0 <= state.selected < state.apps.len(),
    ensures
        ({
            let app = state.apps[state.selected];
            &&& state.on_key(Key::Char(' '), coarse).1 == (CommandView::SetEnabled {
                desktop_id: app.desktop_id,
                enabled: !app.enabled,
            })
            &&& app.enabled ==> state.on_key(Key::Char('r'), coarse).1 == (CommandView::Spawn {
                desktop_id: app.desktop_id,
                supervise: false,
            }) && state.on_key(Key::Char('s'), coarse).1 == (CommandView::Spawn {
                desktop_id: app.desktop_id,
                supervise: true,
            })
            &&& !app.enabled ==> state.on_key(Key::Char('r'), coarse).1 is Nothing && state.on_key(
                Key::Char('s'),
                coarse,
            ).1 is Nothing
            &&& state.on_key(Key::Char('x'), coarse).0.pending == Some(
                PendingView::Remove(app.desktop_id),
            )
            &&& state.on_key(Key::Char('c'), coarse).0.configure == Some(
                DraftView {
                    desktop_id: app.desktop_id,
                    policy: app.policy,
                    field: 0,
                    reset_to_defaults: false,
                },
            )
        }),
{
}

/// What was to be confirmed is done where it is confirmed, and not where it is
/// refused; either way nothing waits any more.
pub proof fn confirmed_actions_are_done(state: StateView, coarse: bool, action: PendingView)
    requires
        state.screen == Screen::Confirm,
        state.pending == Some(action),
    ensures
        ({
            let (yes, done) = state.on_key(Key::Enter, coarse);
            let (no, nothing) = state.on_key(Key::Esc, coarse);
            &&& yes.pending is None && no.pending is None
            &&& nothing is Nothing
            &&& state.on_key(Key::Char('y'), coarse).1 == done
            &&& state.on_key(Key::Char('n'), coarse).1 == nothing
            &&& match action {
                PendingView::Remove(id) => done == (CommandView::Remove { desktop_id: id }),
                PendingView::StartupEnable { suppress_autostart } => done == (
                CommandView::EnableStartup { suppress_autostart }),
                PendingView::StartupDisable => done == CommandView::DisableStartup,
            }
        }),
{
}

/// As many entries are told as left out as there are warnings that say so.
pub proof fn skipped_entries_are_counted(warnings: Seq<WarningView>)
    ensures
        skipped_count(warnings) == warnings.filter(|w: WarningView| w.skipped).len(),
    decreases warnings.len(),
{
    reveal(Seq::filter);
    if warnings.len() > 0 {
        skipped_entries_are_counted(warnings.drop_last());
    }
}

/// What was discovered can be chosen from afresh: the list begins at its first
/// entry and nothing is chosen yet.
pub proof fn choices_begin_afresh(state: StateView, found: Vec<DiscoveredApplication>)
    ensures
        ({
            let after = state.after(TuiOutcome::Discovered(found));
            &&& after.screen == Screen::Add
            &&& after.chosen.len() == 0
            &&& after.add_index == 0
            &&& after.candidates == candidates_among(views(found@), state.apps)
            &&& after.apps == state.apps
        }),
{
}

/// Data roots that are asked for replace those of the environment, both of
/// them, and have to exist; the two flags are as asked for.
pub proof fn asked_roots_replace_the_usual_ones(
    options: OptionsView,
    all: bool,
    unfiltered: bool,
    data_home: Option<Seq<u8>>,
    data_dirs: Seq<Seq<u8>>,
)
    ensures
        ({
            let asked = asked_options(options, all, unfiltered, data_home, data_dirs);
            let explicit = data_home is Some || data_dirs.len() > 0;
            &&& explicit ==> asked.data_home == data_home && asked.data_dirs == data_dirs
                && asked.require_existing_roots
            &&& !explicit ==> asked.data_home == options.data_home && asked.data_dirs
                == options.data_dirs && asked.require_existing_roots
                == options.require_existing_roots
            &&& asked.include_no_display == all
            &&& asked.ignore_desktop_filter == unfiltered
            &&& asked.locale == options.locale
            &&& asked.current_desktops == options.current_desktops
            &&& asked.executable_path == options.executable_path
        }),
{
}

} // verus!
