//! What it takes to call a system hybrid.
use vstd::prelude::*;

use vstd::arithmetic::power2::{lemma2_to64, pow2};

use super::detector::{
    all_metadata_complete, both_types, classification, conservative_policy, default_policy, double,
    exactly_measured, explicit_classification, frequencies_usable, heuristic_classification,
    is_fast, is_slow, larger_step, ordered_speeds, policy_never_weakens, speed_before,
    strongest_step, strongest_step_is_largest, well_separated, widths, DetectorPolicy,
    DEFAULT_CLUSTER_SPREAD, DEFAULT_CORES_PER_CLUSTER, DEFAULT_FREQUENCY_RATIO,
};
use super::grouping::GroupedCoreView;
use super::types::TopologyClass;
use crate::float::{
    double_order_is_bit_order, doublings, half_even_is_nearest, halvings, lemma_halvings,
    lemma_significand, quotient, quotient_up_to_one, significand, DOUBLE_HIDDEN,
};
use crate::order::{
    lemma_filter_all, lemma_filter_holds, lemma_filter_of_sorted, lemma_sorted_holds,
    lemma_stable_sorted_order, lemma_stable_sorted_permutes, stable_sorted, strict_weak_order,
};

verus! {

/// Frequencies below this many kilohertz are told apart by the double format
/// as finely as the thresholds need.
pub const PRECISE: u64 = 0x4_0000_0000_0000;

/// A speed exceeds another by a quarter, as far as the double format tells.
pub open spec fn apart(high: u64, low: u64) -> bool {
    quotient(high, low).units() >= double(DEFAULT_FREQUENCY_RATIO).units()
}

/// A speed falls short of another by eight per cent at most, as far as the
/// double format tells.
pub open spec fn tight(low: u64, high: u64) -> bool {
    quotient((high - low) as u64, high).units() <= double(DEFAULT_CLUSTER_SPREAD).units()
}

/// The speeds of some cores go from the one to the other.
pub open spec fn ranges(cores: Seq<GroupedCoreView>, low: u64, high: u64) -> bool {
    &&& exists|i: int| 0 <= i < cores.len() && (#[trigger] cores[i]).max_frequency_khz == Some(low)
    &&& exists|i: int| 0 <= i < cores.len() && (#[trigger] cores[i]).max_frequency_khz == Some(high)
    &&& forall|i: int|
        0 <= i < cores.len() ==> (#[trigger] cores[i]).max_frequency_khz is Some && low
            <= cores[i].max_frequency_khz->0 <= high
}

/// The cores form two clusters of maximum frequencies that differ as the
/// cores of a hybrid system do. The slower cluster goes from `bottom` to
/// `limit`, the faster one from `start` to `top`.
pub open spec fn corroborated(
    cores: Seq<GroupedCoreView>,
    bottom: u64,
    limit: u64,
    start: u64,
    top: u64,
) -> bool {
    let slow = cores.filter(is_slow(limit));
    let fast = cores.filter(is_fast(limit));
    &&& forall|i: int| 0 <= i < cores.len() ==> exactly_measured(#[trigger] cores[i])
    &&& slow.len() >= 2
    &&& fast.len() >= 2
    &&& 0 < limit < start
    &&& ranges(slow, bottom, limit)
    &&& ranges(fast, start, top)
    &&& apart(start, limit)
    &&& tight(bottom, limit)
    &&& tight(start, top)
    &&& widths(slow).len() == 1
    &&& widths(fast).len() == 1
    &&& widths(slow)[0] < widths(fast)[0]
}

spec fn known_speed() -> spec_fn(GroupedCoreView) -> Option<u64> {
    |core: GroupedCoreView| core.max_frequency_khz
}

proof fn lemma_speeds(cores: Seq<GroupedCoreView>, core: GroupedCoreView)
    ensures
        cores.contains(core) && core.max_frequency_khz is Some ==> cores.filter_map(
            known_speed(),
        ).contains(core.max_frequency_khz->0),
    decreases cores.len(),
{
    reveal(Seq::filter_map);
    if cores.len() > 0 {
        let front = cores.drop_last();
        let some = cores.filter_map(known_speed());
        let fewer = front.filter_map(known_speed());
        lemma_speeds(front, core);
        if cores.contains(core) && core.max_frequency_khz is Some {
            let k = choose|k: int| 0 <= k < cores.len() && cores[k] == core;
            if k < front.len() {
                assert(front[k] == core);
                let m = choose|m: int|
                    0 <= m < fewer.len() && fewer[m] == core.max_frequency_khz->0;
                assert(some[m] == core.max_frequency_khz->0);
            } else {
                assert(some[some.len() - 1] == core.max_frequency_khz->0);
            }
        }
    }
}

proof fn lemma_speed_has_core(cores: Seq<GroupedCoreView>, speed: u64) -> (core: GroupedCoreView)
    requires
        cores.filter_map(known_speed()).contains(speed),
    ensures
        cores.contains(core),
        core.max_frequency_khz == Some(speed),
    decreases cores.len(),
{
    reveal(Seq::filter_map);
    let front = cores.drop_last();
    let some = cores.filter_map(known_speed());
    let fewer = front.filter_map(known_speed());
    let m = choose|m: int| 0 <= m < some.len() && some[m] == speed;
    if m < fewer.len() {
        assert(fewer[m] == speed);
        let core = lemma_speed_has_core(front, speed);
        let k = choose|k: int| 0 <= k < front.len() && front[k] == core;
        assert(cores[k] == core);
        core
    } else {
        assert(cores[cores.len() - 1] == cores.last());
        cores.last()
    }
}

spec fn at_most(limit: u64) -> spec_fn(u64) -> bool {
    |speed: u64| speed <= limit
}

spec fn above(limit: u64) -> spec_fn(u64) -> bool {
    |speed: u64| speed > limit
}

/// There are as many cores in a cluster as speeds.
proof fn lemma_cluster_sizes(cores: Seq<GroupedCoreView>, limit: u64)
    ensures
        cores.filter(is_slow(limit)).len() == cores.filter_map(known_speed()).filter(
            at_most(limit),
        ).len(),
        cores.filter(is_fast(limit)).len() == cores.filter_map(known_speed()).filter(
            above(limit),
        ).len(),
    decreases cores.len(),
{
    reveal(Seq::filter_map);
    reveal(Seq::filter);
    if cores.len() > 0 {
        let front = cores.drop_last();
        let fewer = front.filter_map(known_speed());
        lemma_cluster_sizes(front, limit);
        if cores.last().max_frequency_khz is Some {
            let speed = cores.last().max_frequency_khz->0;
            assert(cores.filter_map(known_speed()) =~= fewer.push(speed));
            assert(fewer.push(speed).drop_last() =~= fewer);
        } else {
            assert(cores.filter_map(known_speed()) =~= fewer);
        }
    }
}

proof fn lemma_speed_order()
    ensures
        strict_weak_order(speed_before()),
{
    let before = speed_before();
    assert forall|a: u64, b: u64| #[trigger] before(a, b) implies !before(b, a) by {}
    assert forall|a: u64, b: u64, c: u64|
        !(#[trigger] before(a, b)) && !(#[trigger] before(b, c)) implies !before(a, c) by {}
}

proof fn lemma_strongest_step_is_inside(speeds: Seq<u64>, count: int)
    requires
        strongest_step(speeds, count) is Some,
    ensures
        0 < strongest_step(speeds, count)->0 < count,
    decreases count,
{
    if strongest_step(speeds, count - 1) is Some {
        lemma_strongest_step_is_inside(speeds, count - 1);
    }
}

/// A part of a sequence whose items all pass a filter counts in full.
proof fn lemma_filter_part<T>(s: Seq<T>, from: int, to: int, keep: spec_fn(T) -> bool)
    requires
        0 <= from <= to <= s.len(),
        forall|i: int| from <= i < to ==> keep(#[trigger] s[i]),
    ensures
        s.filter(keep).len() >= to - from,
{
    let before = s.take(from);
    let part = s.subrange(from, to);
    let behind = s.skip(to);
    assert forall|i: int| 0 <= i < part.len() implies keep(#[trigger] part[i]) by {
        assert(keep(s[from + i]));
    }
    lemma_filter_all(part, keep);
    assert(s =~= before + part + behind);
    Seq::filter_distributes_over_add(before + part, behind, keep);
    Seq::filter_distributes_over_add(before, part, keep);
}

/// A core's speed stands among the ordered speeds of its cluster.
proof fn lemma_speed_position(cores: Seq<GroupedCoreView>, core: GroupedCoreView) -> (at: int)
    requires
        cores.contains(core),
        core.max_frequency_khz is Some,
    ensures
        0 <= at < ordered_speeds(cores).len(),
        ordered_speeds(cores)[at] == core.max_frequency_khz->0,
{
    let speeds = ordered_speeds(cores);
    let speed = core.max_frequency_khz->0;
    lemma_speeds(cores, core);
    lemma_sorted_holds(cores.filter_map(known_speed()), speed_before(), speed);
    choose|at: int| 0 <= at < speeds.len() && speeds[at] == speed
}

/// A quotient of a quarter above one shows one.
proof fn lemma_apart(high: u64, low: u64)
    requires
        apart(high, low),
        0 < low,
    ensures
        high > low,
{
    let least = double(DEFAULT_FREQUENCY_RATIO);
    double_order_is_bit_order(quotient(high, low), least);
    assert(least.magnitude() == DEFAULT_FREQUENCY_RATIO);
    if high <= low {
        quotient_up_to_one(high, low);
    }
}

/// A cluster's bounds are speeds of its cores.
proof fn lemma_ranges(
    cores: Seq<GroupedCoreView>,
    keep: spec_fn(GroupedCoreView) -> bool,
    from: int,
    to: int,
)
    requires
        0 <= from < to <= ordered_speeds(cores).len(),
        forall|i: int, j: int|
            0 <= i <= j < ordered_speeds(cores).len() ==> #[trigger] ordered_speeds(cores)[i]
                <= #[trigger] ordered_speeds(cores)[j],
        forall|core: GroupedCoreView| #[trigger] keep(core) ==> core.max_frequency_khz is Some,
        forall|core: GroupedCoreView, i: int|
            0 <= i < ordered_speeds(cores).len() && core.max_frequency_khz == Some(
                #[trigger] ordered_speeds(cores)[i],
            ) ==> (#[trigger] keep(core) <==> from <= i < to),
    ensures
        ranges(cores.filter(keep), ordered_speeds(cores)[from], ordered_speeds(cores)[to - 1]),
{
    let speeds = ordered_speeds(cores);
    let known = cores.filter_map(known_speed());
    let some = cores.filter(keep);
    assert(speeds == stable_sorted(known, speed_before()));
    assert forall|at: int| from <= at < to implies exists|i: int|
        0 <= i < some.len() && (#[trigger] some[i]).max_frequency_khz == Some(
            #[trigger] speeds[at],
        ) by {
        lemma_sorted_holds(known, speed_before(), speeds[at]);
        assert(speeds.contains(speeds[at]));
        let core = lemma_speed_has_core(cores, speeds[at]);
        assert(keep(core));
        lemma_filter_holds(cores, keep, core);
        let i = choose|i: int| 0 <= i < some.len() && some[i] == core;
        assert(some[i].max_frequency_khz == Some(speeds[at]));
    }
    assert(speeds[from] == speeds[from] && speeds[to - 1] == speeds[to - 1]);
    assert forall|i: int| 0 <= i < some.len() implies (#[trigger] some[i]).max_frequency_khz is Some
        && speeds[from] <= some[i].max_frequency_khz->0 <= speeds[to - 1] by {
        assert(some.contains(some[i]));
        lemma_filter_holds(cores, keep, some[i]);
        let at = lemma_speed_position(cores, some[i]);
        assert(keep(some[i]));
        assert(from <= at < to);
    }
}

proof fn lemma_heuristic_is_corroborated(cores: Seq<GroupedCoreView>, policy: DetectorPolicy) -> (r: (
    u64,
    u64,
    u64,
    u64,
))
    requires
        policy.minimum_frequency_ratio.units() >= double(DEFAULT_FREQUENCY_RATIO).units(),
        policy.maximum_cluster_spread.units() <= double(DEFAULT_CLUSTER_SPREAD).units(),
        policy.minimum_cores_per_cluster >= DEFAULT_CORES_PER_CLUSTER,
        heuristic_classification(cores, policy).0 is Some,
    ensures
        corroborated(cores, r.0, r.1, r.2, r.3),
{
    let speeds = ordered_speeds(cores);
    let count = speeds.len() as int;
    let known = cores.filter_map(known_speed());
    assert(speeds == stable_sorted(known, speed_before()));
    let split = strongest_step(speeds, count)->0;
    lemma_strongest_step_is_inside(speeds, count);
    lemma_speed_order();
    lemma_stable_sorted_order(known, speed_before());
    let bottom = speeds[0];
    let limit = speeds[split - 1];
    let start = speeds[split];
    let top = speeds[count - 1];
    let slow = cores.filter(is_slow(limit));
    let fast = cores.filter(is_fast(limit));
    assert forall|i: int, j: int| 0 <= i <= j < count implies #[trigger] speeds[i]
        <= #[trigger] speeds[j] by {
        if i < j {
            assert(!speed_before()(speeds[j], speeds[i]));
        }
    }
    lemma_apart(start, limit);
    lemma_cluster_sizes(cores, limit);
    lemma_filter_of_sorted(known, speed_before(), at_most(limit));
    lemma_filter_of_sorted(known, speed_before(), above(limit));
    lemma_stable_sorted_permutes(known.filter(at_most(limit)), speed_before());
    lemma_stable_sorted_permutes(known.filter(above(limit)), speed_before());
    lemma_filter_part(speeds, 0, split, at_most(limit));
    lemma_filter_part(speeds, split, count, above(limit));
    assert forall|i: int| 0 <= i < count implies (i < split <==> #[trigger] speeds[i] <= limit) by {
        if i < split {
            assert(speeds[i] <= speeds[split - 1]);
        } else {
            assert(speeds[split] <= speeds[i]);
        }
    }
    lemma_ranges(cores, is_slow(limit), 0, split);
    lemma_ranges(cores, is_fast(limit), split, count);
    (bottom, limit, start, top)
}

/// A system is hybrid only by metadata that covers every core and names both
/// types, or by two frequency clusters that are exact and complete, of at
/// least two cores each, at least a quarter apart, within eight per cent
/// each, and with more threads per core in the faster one. No policy can ask
/// for less.
pub proof fn hybrid_is_explicit_or_corroborated(
    online: Seq<u32>,
    cores: Seq<GroupedCoreView>,
    policy: DetectorPolicy,
)
    requires
        classification(online, cores, conservative_policy(policy)).classification
            == TopologyClass::Hybrid,
    ensures
        (all_metadata_complete(cores) && both_types(cores)) || exists|
            bottom: u64,
            limit: u64,
            start: u64,
            top: u64,
        |
            corroborated(cores, bottom, limit, start, top),
{
    let safe = conservative_policy(policy);
    policy_never_weakens(policy);
    if explicit_classification(cores, safe) is None {
        let (bottom, limit, start, top) = lemma_heuristic_is_corroborated(cores, safe);
        assert(corroborated(cores, bottom, limit, start, top));
    }
}

proof fn lemma_quarter(high: u64, low: u64)
    requires
        apart(high, low),
        0 < low < high < PRECISE,
    ensures
        100 * high >= 125 * low,
{
    let least = double(DEFAULT_FREQUENCY_RATIO);
    let ratio = quotient(high, low);
    double_order_is_bit_order(ratio, least);
    if 4 * high < 5 * low {
        reveal_with_fuel(doublings, 2);
        lemma2_to64();
        assert(doublings(high as nat, low as nat) == 0);
        assert(low as nat * pow2(0) == low);
        let m = significand(high as nat, low as nat);
        half_even_is_nearest(high as nat * DOUBLE_HIDDEN as nat, low as nat);
        assert(m < 5 * 0x4_0000_0000_0000) by (nonlinear_arith)
            requires
                2 * (high * DOUBLE_HIDDEN) + low >= 2 * m * low,
                4 * high + 1 <= 5 * low,
                0 < low < PRECISE,
                DOUBLE_HIDDEN == 0x10_0000_0000_0000,
                PRECISE == 0x4_0000_0000_0000,
        ;
        assert(ratio.bits == 1022 * DOUBLE_HIDDEN + m);
        assert(false);
    }
}

proof fn lemma_eight_per_cent(low: u64, high: u64)
    requires
        tight(low, high),
        low <= high,
        0 < high < PRECISE,
    ensures
        100 * (high - low) <= 8 * high,
{
    let most = double(DEFAULT_CLUSTER_SPREAD);
    let difference = (high - low) as u64;
    let spread = quotient(difference, high);
    double_order_is_bit_order(most, spread);
    if 25 * difference > 2 * high {
        let a = difference as nat;
        let b = high as nat;
        reveal_with_fuel(halvings, 6);
        reveal_with_fuel(doublings, 2);
        lemma2_to64();
        if a == b {
            assert(b * pow2(0) == b);
            half_even_is_nearest(b * DOUBLE_HIDDEN as nat, b);
            let m = significand(a, b);
            assert(m >= DOUBLE_HIDDEN) by (nonlinear_arith)
                requires
                    2 * (b * DOUBLE_HIDDEN) <= (2 * m + 1) * b,
                    b > 0,
            ;
            assert(m <= 2 * DOUBLE_HIDDEN) by (nonlinear_arith)
                requires
                    2 * (b * DOUBLE_HIDDEN) + b >= 2 * m * b,
                    b > 0,
                    DOUBLE_HIDDEN == 0x10_0000_0000_0000,
            ;
            assert(spread.bits == 1022 * DOUBLE_HIDDEN + m);
            assert(false);
        } else {
            let k = halvings(a, b);
            assert(1 <= k <= 4);
            let n = a * pow2(k);
            assert(b <= n < 2 * b) by {
                lemma_halvings(a, b);
            }
            let m = significand(n, b);
            half_even_is_nearest(n * DOUBLE_HIDDEN as nat, b);
            lemma_significand(n, b);
            assert(spread.bits == (1022 - k) * DOUBLE_HIDDEN + m);
            if k == 4 {
                assert(n == 16 * a) by (nonlinear_arith)
                    requires
                        n == a * pow2(k),
                        pow2(k) == 16,
                ;
                assert(m > 0x14_7AE1_47AE_147B) by (nonlinear_arith)
                    requires
                        2 * (n * DOUBLE_HIDDEN) <= (2 * m + 1) * b,
                        n == 16 * a,
                        25 * a >= 2 * b + 1,
                        0 < b < PRECISE,
                        DOUBLE_HIDDEN == 0x10_0000_0000_0000,
                        PRECISE == 0x4_0000_0000_0000,
                ;
            }
            assert(false);
        }
    }
}

/// In numbers: below [`PRECISE`] kilohertz the clusters of a corroborated
/// result are at least a quarter apart and within eight per cent each, to the last
/// unit.
pub proof fn corroboration_is_exact(
    cores: Seq<GroupedCoreView>,
    bottom: u64,
    limit: u64,
    start: u64,
    top: u64,
)
    requires
        corroborated(cores, bottom, limit, start, top),
        top < PRECISE,
    ensures
        100 * start >= 125 * limit,
        100 * (limit - bottom) <= 8 * limit,
        100 * (top - start) <= 8 * top,
{
    let slow = cores.filter(is_slow(limit));
    let fast = cores.filter(is_fast(limit));
    assert(bottom <= limit && start <= top);
    lemma_quarter(start, limit);
    lemma_eight_per_cent(bottom, limit);
    lemma_eight_per_cent(start, top);
}

/// Speeds in order have a place up to which they are at most the limit.
proof fn lemma_boundary(speeds: Seq<u64>, limit: u64, n: int) -> (p: int)
    requires
        0 <= n <= speeds.len(),
        forall|i: int, j: int|
            0 <= i <= j < speeds.len() ==> #[trigger] speeds[i] <= #[trigger] speeds[j],
    ensures
        0 <= p <= n,
        forall|i: int| 0 <= i < n ==> (i < p <==> #[trigger] speeds[i] <= limit),
    decreases n,
{
    if n == 0 {
        0
    } else if speeds[n - 1] <= limit {
        assert forall|i: int| 0 <= i < n implies (i < n <==> #[trigger] speeds[i] <= limit) by {
            assert(speeds[i] <= speeds[n - 1]);
        }
        n
    } else {
        lemma_boundary(speeds, limit, n - 1)
    }
}

proof fn lemma_cluster_counts(speeds: Seq<u64>, limit: u64)
    ensures
        speeds.filter(at_most(limit)).len() + speeds.filter(above(limit)).len() == speeds.len(),
    decreases speeds.len(),
{
    reveal(Seq::filter);
    if speeds.len() > 0 {
        lemma_cluster_counts(speeds.drop_last(), limit);
    }
}

proof fn lemma_fewer_speeds(cores: Seq<GroupedCoreView>)
    ensures
        cores.filter_map(known_speed()).len() <= cores.len(),
    decreases cores.len(),
{
    reveal(Seq::filter_map);
    if cores.len() > 0 {
        lemma_fewer_speeds(cores.drop_last());
    }
}

/// Where the clusters stand among the ordered speeds.
proof fn lemma_cluster_place(
    cores: Seq<GroupedCoreView>,
    bottom: u64,
    limit: u64,
    start: u64,
    top: u64,
) -> (split: int)
    requires
        corroborated(cores, bottom, limit, start, top),
    ensures
        ({
            let speeds = ordered_speeds(cores);
            &&& 2 <= split <= speeds.len() - 2
            &&& speeds.len() <= cores.len()
            &&& speeds[0] == bottom
            &&& speeds[split - 1] == limit
            &&& speeds[split] == start
            &&& speeds[speeds.len() - 1] == top
            &&& forall|i: int, j: int|
                0 <= i <= j < speeds.len() ==> #[trigger] speeds[i] <= #[trigger] speeds[j]
        }),
{
    let speeds = ordered_speeds(cores);
    let count = speeds.len() as int;
    let known = cores.filter_map(known_speed());
    let slow = cores.filter(is_slow(limit));
    let fast = cores.filter(is_fast(limit));
    assert(speeds == stable_sorted(known, speed_before()));
    lemma_speed_order();
    lemma_stable_sorted_order(known, speed_before());
    lemma_stable_sorted_permutes(known, speed_before());
    lemma_fewer_speeds(cores);
    assert forall|i: int, j: int| 0 <= i <= j < count implies #[trigger] speeds[i]
        <= #[trigger] speeds[j] by {
        if i < j {
            assert(!speed_before()(speeds[j], speeds[i]));
        }
    }
    let split = lemma_boundary(speeds, limit, count);
    lemma_cluster_sizes(cores, limit);
    lemma_cluster_counts(known, limit);
    lemma_filter_of_sorted(known, speed_before(), at_most(limit));
    lemma_filter_of_sorted(known, speed_before(), above(limit));
    lemma_stable_sorted_permutes(known.filter(at_most(limit)), speed_before());
    lemma_stable_sorted_permutes(known.filter(above(limit)), speed_before());
    lemma_filter_part(speeds, 0, split, at_most(limit));
    lemma_filter_part(speeds, split, count, above(limit));
    assert(slow.len() == split && fast.len() == count - split);
    let low = choose|i: int|
        0 <= i < slow.len() && (#[trigger] slow[i]).max_frequency_khz == Some(bottom);
    let low_end = choose|i: int|
        0 <= i < slow.len() && (#[trigger] slow[i]).max_frequency_khz == Some(limit);
    let high = choose|i: int|
        0 <= i < fast.len() && (#[trigger] fast[i]).max_frequency_khz == Some(start);
    let high_end = choose|i: int|
        0 <= i < fast.len() && (#[trigger] fast[i]).max_frequency_khz == Some(top);
    let a = lemma_member_position(cores, is_slow(limit), low);
    let b = lemma_member_position(cores, is_slow(limit), low_end);
    let c = lemma_member_position(cores, is_fast(limit), high);
    let d = lemma_member_position(cores, is_fast(limit), high_end);
    assert(speeds[a] == bottom && speeds[b] == limit && speeds[c] == start && speeds[d] == top);
    lemma_position_member(cores, is_slow(limit), 0);
    lemma_position_member(cores, is_slow(limit), split - 1);
    lemma_position_member(cores, is_fast(limit), split);
    lemma_position_member(cores, is_fast(limit), count - 1);
    assert(speeds[0] <= limit && speeds[split - 1] <= limit);
    assert(speeds[split] > limit && speeds[count - 1] > limit);
    assert(speeds[0] <= speeds[a] && speeds[b] <= speeds[split - 1]);
    assert(speeds[split] <= speeds[c] && speeds[d] <= speeds[count - 1]);
    split
}

proof fn lemma_member_position(
    cores: Seq<GroupedCoreView>,
    keep: spec_fn(GroupedCoreView) -> bool,
    i: int,
) -> (at: int)
    requires
        0 <= i < cores.filter(keep).len(),
        cores.filter(keep)[i].max_frequency_khz is Some,
    ensures
        0 <= at < ordered_speeds(cores).len(),
        ordered_speeds(cores)[at] == cores.filter(keep)[i].max_frequency_khz->0,
{
    let some = cores.filter(keep);
    assert(some.contains(some[i]));
    lemma_filter_holds(cores, keep, some[i]);
    lemma_speed_position(cores, some[i])
}

proof fn lemma_position_member(
    cores: Seq<GroupedCoreView>,
    keep: spec_fn(GroupedCoreView) -> bool,
    at: int,
)
    requires
        0 <= at < ordered_speeds(cores).len(),
        forall|core: GroupedCoreView|
            core.max_frequency_khz == Some(ordered_speeds(cores)[at]) ==> #[trigger] keep(core),
    ensures
        exists|i: int|
            0 <= i < cores.filter(keep).len() && (#[trigger] cores.filter(
                keep,
            )[i]).max_frequency_khz == Some(ordered_speeds(cores)[at]),
{
    let speeds = ordered_speeds(cores);
    let known = cores.filter_map(known_speed());
    assert(speeds == stable_sorted(known, speed_before()));
    assert(speeds.contains(speeds[at]));
    lemma_sorted_holds(known, speed_before(), speeds[at]);
    let core = lemma_speed_has_core(cores, speeds[at]);
    lemma_filter_holds(cores, keep, core);
    let some = cores.filter(keep);
    let i = choose|i: int| 0 <= i < some.len() && some[i] == core;
    assert(some[i].max_frequency_khz == Some(speeds[at]));
}

/// Speeds within eight per cent of each other are no quarter apart.
proof fn lemma_close_is_not_apart(low: u64, high: u64)
    requires
        0 < low <= high < PRECISE,
        92 * high <= 100 * low,
    ensures
        !apart(high, low),
{
    if apart(high, low) {
        lemma_apart(high, low);
        lemma_quarter(high, low);
    }
}

/// Two clusters of cores that differ as those of a hybrid system do make a
/// system hybrid under the default policy, where the types were not stated: no
/// such system is passed over. The speeds are below [`PRECISE`] kilohertz.
pub proof fn corroborated_systems_are_hybrid(
    online: Seq<u32>,
    cores: Seq<GroupedCoreView>,
    bottom: u64,
    limit: u64,
    start: u64,
    top: u64,
)
    requires
        corroborated(cores, bottom, limit, start, top),
        top < PRECISE,
        explicit_classification(cores, default_policy()) is None,
    ensures
        classification(online, cores, default_policy()).classification == TopologyClass::Hybrid,
{
    let policy = default_policy();
    let speeds = ordered_speeds(cores);
    let count = speeds.len() as int;
    let split = lemma_cluster_place(cores, bottom, limit, start, top);
    assert(bottom <= limit && start <= top);
    lemma_eight_per_cent(bottom, limit);
    lemma_eight_per_cent(start, top);
    assert forall|i: int| 0 <= i < count implies #[trigger] speeds[i] > 0 by {
        assert(speeds[0] <= speeds[i]);
    }
    strongest_step_is_largest(speeds, count, split);
    let found = strongest_step(speeds, count)->0;
    if found != split {
        assert(speeds[found - 1] <= speeds[found]);
        if found < split {
            assert(speeds[0] <= speeds[found - 1] && speeds[found] <= speeds[split - 1]);
            lemma_close_is_not_apart(speeds[found - 1], speeds[found]);
        } else {
            assert(speeds[split] <= speeds[found - 1] && speeds[found] <= speeds[count - 1]);
            lemma_close_is_not_apart(speeds[found - 1], speeds[found]);
        }
        assert(larger_step(speeds, split, found));
    }
    assert(well_separated(speeds, split, policy));
    assert(frequencies_usable(cores, policy));
}

} // verus!
