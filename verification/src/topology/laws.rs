//! What holds of every detected topology.
use vstd::prelude::*;

use super::detector::{
    bounded_confidence_is_bounded, class_cpus, classification, core_before, explicit_classification,
    heuristic_classification, is_bounded, is_fast, is_slow, ordered_speeds, outputs, single,
    size_before, strongest_step, topology, widths, DetectorPolicy, SINGLE_TYPE_CONFIDENCE,
    UNIFORM_CONFIDENCE, UNKNOWN_CONFIDENCE,
};
use super::grouping::{
    core_groups, core_members, is_first, is_label, same_core, same_core_reflexive,
    same_core_symmetric, same_core_transitive, shares_core, GroupedCoreView,
};
use super::parser::CoreTypeInterpretation;
use super::sysfs::SysfsSnapshotView;
use super::types::{CoreClass, PhysicalCoreView, TopologyClass};
use crate::float::{single_order_is_bit_order, SINGLE_ONE};
use crate::order::{ascending, lemma_filter_holds, lemma_sorted_holds, sorted_set, stable_sorted};

verus! {

/// What passes a filter keeps its ascending order.
pub proof fn lemma_filter_ascending(s: Seq<u32>, keep: spec_fn(u32) -> bool)
    requires
        ascending(s),
    ensures
        ascending(s.filter(keep)),
    decreases s.len(),
{
    reveal(Seq::filter);
    if s.len() > 0 {
        let front = s.drop_last();
        lemma_filter_ascending(front, keep);
        let f = front.filter(keep);
        assert forall|i: int, j: int| 0 <= i < j < s.filter(keep).len() implies s.filter(keep)[i]
            < s.filter(keep)[j] by {
            if j == f.len() {
                assert(f.contains(f[i]));
                lemma_filter_holds(front, keep, f[i]);
                let k = choose|k: int| 0 <= k < front.len() && front[k] == f[i];
                assert(s[k] < s[s.len() - 1]);
            }
        }
    }
}

/// Every online CPU has a least CPU on its core.
proof fn lemma_label_exists(snapshot: SysfsSnapshotView, cpu: u32, n: int)
    requires
        snapshot.well_formed(),
        snapshot.online_cpus.contains(cpu),
        0 <= n <= snapshot.online_cpus.len(),
        forall|i: int|
            0 <= i < snapshot.online_cpus.len() - n ==> !same_core(
                snapshot,
                cpu,
                #[trigger] snapshot.online_cpus[i],
            ),
    ensures
        exists|label: u32| is_label(snapshot, cpu, label),
    decreases n,
{
    let online = snapshot.online_cpus;
    let at = online.len() - n;
    if n == 0 {
        same_core_reflexive(snapshot, cpu);
        let k = choose|k: int| 0 <= k < online.len() && online[k] == cpu;
        assert(!same_core(snapshot, cpu, online[k]));
    } else if same_core(snapshot, cpu, online[at]) {
        assert(is_label(snapshot, cpu, online[at])) by {
            assert forall|other: u32| #[trigger]
                same_core(snapshot, cpu, other) && online.contains(other) implies online[at]
                <= other by {
                let k = choose|k: int| 0 <= k < online.len() && online[k] == other;
                if k < at {
                    assert(!same_core(snapshot, cpu, online[k]));
                } else if k > at {
                    assert(online[at] < online[k]);
                }
            }
        }
    } else {
        lemma_label_exists(snapshot, cpu, n - 1);
    }
}

/// The physical cores partition the online CPUs: each online CPU is on exactly
/// one core, and no core has another CPU.
pub proof fn cores_partition_online_cpus(snapshot: SysfsSnapshotView)
    requires
        snapshot.well_formed(),
    ensures
        forall|cpu: u32| #[trigger]
            snapshot.online_cpus.contains(cpu) <==> exists|k: int|
                0 <= k < core_groups(snapshot).len() && core_groups(
                    snapshot,
                )[k].output.logical_cpus.contains(cpu),
        forall|k: int, m: int, cpu: u32|
            0 <= k < core_groups(snapshot).len() && 0 <= m < core_groups(snapshot).len()
                && #[trigger] core_groups(snapshot)[k].output.logical_cpus.contains(cpu)
                && #[trigger] core_groups(snapshot)[m].output.logical_cpus.contains(cpu) ==> k == m,
        forall|k: int|
            0 <= k < core_groups(snapshot).len() ==> (#[trigger] core_groups(
                snapshot,
            )[k]).output.logical_cpus.len() > 0 && ascending(
                core_groups(snapshot)[k].output.logical_cpus,
            ),
{
    let online = snapshot.online_cpus;
    let firsts = online.filter(is_first(snapshot));
    let groups = core_groups(snapshot);
    assert forall|k: int| 0 <= k < groups.len() implies (#[trigger] groups[k]).output.logical_cpus
        == core_members(snapshot, firsts[k]) by {}
    lemma_filter_ascending(online, is_first(snapshot));
    assert forall|cpu: u32| #[trigger] online.contains(cpu) implies exists|k: int|
        0 <= k < groups.len() && groups[k].output.logical_cpus.contains(cpu) by {
        assert forall|i: int| 0 <= i < online.len() - online.len() implies !same_core(
            snapshot,
            cpu,
            #[trigger] online[i],
        ) by {}
        lemma_label_exists(snapshot, cpu, online.len() as int);
        let label = choose|label: u32| is_label(snapshot, cpu, label);
        same_core_reflexive(snapshot, label);
        same_core_symmetric(snapshot, cpu, label);
        assert(is_label(snapshot, label, label)) by {
            assert forall|other: u32| #[trigger]
                same_core(snapshot, label, other) && online.contains(other) implies label
                <= other by {
                same_core_transitive(snapshot, cpu, label, other);
            }
        }
        lemma_filter_holds(online, is_first(snapshot), label);
        let k = choose|k: int| 0 <= k < firsts.len() && firsts[k] == label;
        lemma_filter_holds(online, shares_core(snapshot, label), cpu);
        assert(groups[k].output.logical_cpus.contains(cpu));
    }
    assert forall|cpu: u32|
        (exists|k: int| 0 <= k < groups.len() && groups[k].output.logical_cpus.contains(cpu)) implies
        #[trigger] online.contains(cpu) by {
        let k = choose|k: int| 0 <= k < groups.len() && groups[k].output.logical_cpus.contains(cpu);
        lemma_filter_holds(online, shares_core(snapshot, firsts[k]), cpu);
    }
    assert forall|k: int, m: int, cpu: u32|
        0 <= k < groups.len() && 0 <= m < groups.len()
            && #[trigger] groups[k].output.logical_cpus.contains(cpu)
            && #[trigger] groups[m].output.logical_cpus.contains(cpu) implies k == m by {
        let a = firsts[k];
        let b = firsts[m];
        lemma_filter_holds(online, shares_core(snapshot, a), cpu);
        lemma_filter_holds(online, shares_core(snapshot, b), cpu);
        assert(firsts.contains(a) && firsts.contains(b));
        lemma_filter_holds(online, is_first(snapshot), a);
        lemma_filter_holds(online, is_first(snapshot), b);
        same_core_symmetric(snapshot, b, cpu);
        same_core_transitive(snapshot, a, cpu, b);
        same_core_symmetric(snapshot, a, b);
        assert(a <= b && b <= a);
        if k < m {
            assert(firsts[k] < firsts[m]);
        } else if m < k {
            assert(firsts[m] < firsts[k]);
        }
    }
    assert forall|k: int| 0 <= k < groups.len() implies (
    #[trigger] groups[k]).output.logical_cpus.len() > 0 && ascending(
        groups[k].output.logical_cpus,
    ) by {
        let a = firsts[k];
        assert(firsts.contains(a));
        lemma_filter_holds(online, is_first(snapshot), a);
        same_core_reflexive(snapshot, a);
        lemma_filter_holds(online, shares_core(snapshot, a), a);
        lemma_filter_ascending(online, shares_core(snapshot, a));
    }
}

proof fn lemma_constants_are_bounded()
    ensures
        is_bounded(single(0)),
        is_bounded(single(SINGLE_TYPE_CONFIDENCE)),
        is_bounded(single(UNIFORM_CONFIDENCE)),
        is_bounded(single(UNKNOWN_CONFIDENCE)),
{
    let one = single(SINGLE_ONE);
    single_order_is_bit_order(single(0), one);
    single_order_is_bit_order(single(SINGLE_TYPE_CONFIDENCE), one);
    single_order_is_bit_order(single(UNIFORM_CONFIDENCE), one);
    single_order_is_bit_order(single(UNKNOWN_CONFIDENCE), one);
}

/// Classification changes the class, the confidence and the notes of cores,
/// and nothing else.
proof fn lemma_classification_keeps_cpus(
    online: Seq<u32>,
    cores: Seq<GroupedCoreView>,
    policy: DetectorPolicy,
)
    requires
        forall|i: int|
            0 <= i < cores.len() ==> (#[trigger] cores[i]).output.confidence == single(0),
    ensures
        classification(online, cores, policy).cores.len() == cores.len(),
        forall|i: int|
            0 <= i < cores.len() ==> {
                let after = #[trigger] classification(online, cores, policy).cores[i];
                &&& after.output.logical_cpus == cores[i].output.logical_cpus
                &&& is_bounded(after.output.confidence)
            },
{
    let result = classification(online, cores, policy);
    let explicit = explicit_classification(cores, policy);
    let heuristic = heuristic_classification(cores, policy).0;
    bounded_confidence_is_bounded(policy.explicit_hybrid_confidence);
    bounded_confidence_is_bounded(policy.heuristic_hybrid_confidence);
    lemma_constants_are_bounded();
    if explicit is Some {
        assert forall|i: int| 0 <= i < cores.len() implies {
            let after = #[trigger] result.cores[i];
            &&& after.output.logical_cpus == cores[i].output.logical_cpus
            &&& is_bounded(after.output.confidence)
        } by {}
    } else if heuristic is Some {
        assert forall|i: int| 0 <= i < cores.len() implies {
            let after = #[trigger] result.cores[i];
            &&& after.output.logical_cpus == cores[i].output.logical_cpus
            &&& is_bounded(after.output.confidence)
        } by {
            assert(cores[i].output.confidence == single(0));
        }
    } else {
        assert forall|i: int| 0 <= i < cores.len() implies {
            let after = #[trigger] result.cores[i];
            &&& after.output.logical_cpus == cores[i].output.logical_cpus
            &&& is_bounded(after.output.confidence)
        } by {}
    }
}

proof fn lemma_class_cpus(cores: Seq<PhysicalCoreView>, class: CoreClass, cpu: u32)
    ensures
        class_cpus(cores, class).contains(cpu) <==> exists|k: int|
            0 <= k < cores.len() && (#[trigger] cores[k]).core_class == class
                && cores[k].logical_cpus.contains(cpu),
    decreases cores.len(),
{
    if cores.len() > 0 {
        let front = cores.drop_last();
        let last = cores.last();
        lemma_class_cpus(front, class, cpu);
        let all = class_cpus(cores, class);
        let before = class_cpus(front, class);
        if all.contains(cpu) {
            let i = choose|i: int| 0 <= i < all.len() && all[i] == cpu;
            if i < before.len() {
                assert(before[i] == cpu);
                let k = choose|k: int|
                    0 <= k < front.len() && (#[trigger] front[k]).core_class == class
                        && front[k].logical_cpus.contains(cpu);
                assert(cores[k].core_class == class);
            } else {
                assert(last.logical_cpus[i - before.len()] == cpu);
                assert(cores[cores.len() - 1].logical_cpus.contains(cpu));
            }
        }
        if exists|k: int|
            0 <= k < cores.len() && (#[trigger] cores[k]).core_class == class
                && cores[k].logical_cpus.contains(cpu) {
            let k = choose|k: int|
                0 <= k < cores.len() && (#[trigger] cores[k]).core_class == class
                    && cores[k].logical_cpus.contains(cpu);
            if k < front.len() {
                assert(front[k].core_class == class);
                let i = choose|i: int| 0 <= i < before.len() && before[i] == cpu;
                assert(all[i] == cpu);
            } else {
                let i = choose|i: int|
                    0 <= i < last.logical_cpus.len() && last.logical_cpus[i] == cpu;
                assert(all[before.len() + i] == cpu);
            }
        }
    }
}

/// The CPUs of a class are those of the classified cores of that class.
pub(crate) proof fn lemma_class_members(
    snapshot: SysfsSnapshotView,
    policy: DetectorPolicy,
    class: CoreClass,
    cpu: u32,
)
    ensures
        ({
            let result = classification(snapshot.online_cpus, core_groups(snapshot), policy);
            class_cpus(stable_sorted(outputs(result.cores), core_before()), class).contains(cpu)
                <==> exists|k: int|
                0 <= k < result.cores.len() && (#[trigger] result.cores[k]).output.core_class
                    == class && result.cores[k].output.logical_cpus.contains(cpu)
        }),
{
    let result = classification(snapshot.online_cpus, core_groups(snapshot), policy);
    let plain = outputs(result.cores);
    let cores = stable_sorted(plain, core_before());
    lemma_class_cpus(cores, class, cpu);
    if class_cpus(cores, class).contains(cpu) {
        let k = choose|k: int|
            0 <= k < cores.len() && (#[trigger] cores[k]).core_class == class
                && cores[k].logical_cpus.contains(cpu);
        lemma_sorted_holds(plain, core_before(), cores[k]);
        assert(cores.contains(cores[k]));
        let m = choose|m: int| 0 <= m < plain.len() && plain[m] == cores[k];
        assert(result.cores[m].output == plain[m]);
    }
    if exists|k: int|
        0 <= k < result.cores.len() && (#[trigger] result.cores[k]).output.core_class == class
            && result.cores[k].output.logical_cpus.contains(cpu) {
        let k = choose|k: int|
            0 <= k < result.cores.len() && (#[trigger] result.cores[k]).output.core_class == class
                && result.cores[k].output.logical_cpus.contains(cpu);
        assert(plain[k] == result.cores[k].output);
        assert(plain.contains(plain[k]));
        lemma_sorted_holds(plain, core_before(), plain[k]);
        let m = choose|m: int| 0 <= m < cores.len() && cores[m] == plain[k];
        assert(cores[m].core_class == class);
    }
}

/// The CPU sets of a topology are ascending, hold online CPUs only, have no
/// CPU in common, and are empty unless the topology is hybrid.
pub proof fn class_sets_are_sound(snapshot: SysfsSnapshotView, policy: DetectorPolicy)
    requires
        snapshot.well_formed(),
    ensures
        ascending(topology(snapshot, policy).efficiency_cpus),
        ascending(topology(snapshot, policy).performance_cpus),
        topology(snapshot, policy).classification != TopologyClass::Hybrid ==> topology(
            snapshot,
            policy,
        ).efficiency_cpus.len() == 0 && topology(snapshot, policy).performance_cpus.len() == 0,
        forall|cpu: u32|
            topology(snapshot, policy).efficiency_cpus.contains(cpu) ==> (
            #[trigger] snapshot.online_cpus.contains(cpu)) && !topology(
                snapshot,
                policy,
            ).performance_cpus.contains(cpu),
        forall|cpu: u32|
            topology(snapshot, policy).performance_cpus.contains(cpu)
                ==> #[trigger] snapshot.online_cpus.contains(cpu),
{
    let result = classification(snapshot.online_cpus, core_groups(snapshot), policy);
    let cores = stable_sorted(outputs(result.cores), core_before());
    crate::order::lemma_sorted_set(class_cpus(cores, CoreClass::Efficiency));
    crate::order::lemma_sorted_set(class_cpus(cores, CoreClass::Performance));
    assert forall|cpu: u32|
        topology(snapshot, policy).efficiency_cpus.contains(cpu) implies (
    #[trigger] snapshot.online_cpus.contains(cpu)) && !topology(
        snapshot,
        policy,
    ).performance_cpus.contains(cpu) by {
        lemma_efficiency_cpu(snapshot, policy, cpu);
    }
    assert forall|cpu: u32|
        topology(snapshot, policy).performance_cpus.contains(cpu) implies #[trigger]
        snapshot.online_cpus.contains(cpu) by {
        let k = lemma_class_set_member(snapshot, policy, CoreClass::Performance, cpu);
    }
}

/// A CPU of a class is on a classified core of that class.
pub(crate) proof fn lemma_class_set_member(
    snapshot: SysfsSnapshotView,
    policy: DetectorPolicy,
    class: CoreClass,
    cpu: u32,
) -> (k: int)
    requires
        snapshot.well_formed(),
        ({
            let result = classification(snapshot.online_cpus, core_groups(snapshot), policy);
            sorted_set(
                class_cpus(stable_sorted(outputs(result.cores), core_before()), class),
            ).contains(cpu)
        }),
    ensures
        snapshot.online_cpus.contains(cpu),
        0 <= k < core_groups(snapshot).len(),
        core_groups(snapshot)[k].output.logical_cpus.contains(cpu),
        classification(
            snapshot.online_cpus,
            core_groups(snapshot),
            policy,
        ).cores[k].output.core_class == class,
{
    let groups = core_groups(snapshot);
    let result = classification(snapshot.online_cpus, groups, policy);
    crate::order::lemma_sorted_set(
        class_cpus(stable_sorted(outputs(result.cores), core_before()), class),
    );
    lemma_class_members(snapshot, policy, class, cpu);
    let k = choose|k: int|
        0 <= k < result.cores.len() && (#[trigger] result.cores[k]).output.core_class == class
            && result.cores[k].output.logical_cpus.contains(cpu);
    lemma_classification_shape(snapshot, policy);
    cores_partition_online_cpus(snapshot);
    assert(groups[k].output.logical_cpus.contains(cpu));
    k
}

proof fn lemma_efficiency_cpu(snapshot: SysfsSnapshotView, policy: DetectorPolicy, cpu: u32)
    requires
        snapshot.well_formed(),
        topology(snapshot, policy).efficiency_cpus.contains(cpu),
    ensures
        snapshot.online_cpus.contains(cpu),
        !topology(snapshot, policy).performance_cpus.contains(cpu),
{
    let k = lemma_class_set_member(snapshot, policy, CoreClass::Efficiency, cpu);
    if topology(snapshot, policy).performance_cpus.contains(cpu) {
        let m = lemma_class_set_member(snapshot, policy, CoreClass::Performance, cpu);
        cores_partition_online_cpus(snapshot);
        assert(k == m);
    }
}

#[verifier::rlimit(30)]
pub(crate) proof fn lemma_classification_shape(snapshot: SysfsSnapshotView, policy: DetectorPolicy)
    ensures
        ({
            let groups = core_groups(snapshot);
            let result = classification(snapshot.online_cpus, groups, policy);
            &&& result.cores.len() == groups.len()
            &&& forall|i: int|
                0 <= i < groups.len() ==> (#[trigger] result.cores[i]).output.logical_cpus
                    == groups[i].output.logical_cpus
        }),
{
    let groups = core_groups(snapshot);
    let result = classification(snapshot.online_cpus, groups, policy);
    assert forall|i: int| 0 <= i < groups.len() implies (
    #[trigger] result.cores[i]).output.logical_cpus == groups[i].output.logical_cpus by {}
}

/// The outputs of classified cores are different ones.
proof fn lemma_outputs_are_distinct(snapshot: SysfsSnapshotView, policy: DetectorPolicy)
    requires
        snapshot.well_formed(),
    ensures
        outputs(
            classification(snapshot.online_cpus, core_groups(snapshot), policy).cores,
        ).no_duplicates(),
{
    let groups = core_groups(snapshot);
    let result = classification(snapshot.online_cpus, groups, policy);
    let plain = outputs(result.cores);
    lemma_classification_shape(snapshot, policy);
    cores_partition_online_cpus(snapshot);
    assert forall|i: int, j: int| 0 <= i < j < plain.len() implies plain[i] != plain[j] by {
        assert(result.cores[i].output == plain[i] && result.cores[j].output == plain[j]);
        let cpu = groups[i].output.logical_cpus[0];
        assert(groups[i].output.logical_cpus.len() > 0);
        assert(groups[i].output.logical_cpus.contains(cpu));
        if plain[i] == plain[j] {
            assert(groups[j].output.logical_cpus.contains(cpu));
        }
    }
}

/// A physical core of a topology is one that was grouped.
pub(crate) proof fn lemma_physical_core(snapshot: SysfsSnapshotView, policy: DetectorPolicy, k: int) -> (m: int)
    requires
        0 <= k < topology(snapshot, policy).physical_cores.len(),
    ensures
        0 <= m < core_groups(snapshot).len(),
        topology(snapshot, policy).physical_cores[k] == outputs(
            classification(snapshot.online_cpus, core_groups(snapshot), policy).cores,
        )[m],
        topology(snapshot, policy).physical_cores[k].logical_cpus == core_groups(
            snapshot,
        )[m].output.logical_cpus,
{
    let result = classification(snapshot.online_cpus, core_groups(snapshot), policy);
    let plain = outputs(result.cores);
    let cores = topology(snapshot, policy).physical_cores;
    lemma_classification_shape(snapshot, policy);
    assert(cores.contains(cores[k]));
    lemma_sorted_holds(plain, core_before(), cores[k]);
    let m = choose|m: int| 0 <= m < plain.len() && plain[m] == cores[k];
    assert(result.cores[m].output == plain[m]);
    m
}

/// The physical cores of a detected topology partition its online CPUs: each
/// online CPU is on exactly one of them, no core has another CPU, and none is
/// without a CPU.
pub proof fn physical_cores_partition_online_cpus(
    snapshot: SysfsSnapshotView,
    policy: DetectorPolicy,
)
    requires
        snapshot.well_formed(),
    ensures
        topology(snapshot, policy).online_cpus == snapshot.online_cpus,
        topology(snapshot, policy).physical_cores.len() == core_groups(snapshot).len(),
        forall|cpu: u32| #[trigger]
            snapshot.online_cpus.contains(cpu) <==> exists|k: int|
                0 <= k < topology(snapshot, policy).physical_cores.len() && topology(
                    snapshot,
                    policy,
                ).physical_cores[k].logical_cpus.contains(cpu),
        forall|k: int, m: int, cpu: u32|
            0 <= k < topology(snapshot, policy).physical_cores.len() && 0 <= m < topology(
                snapshot,
                policy,
            ).physical_cores.len() && #[trigger] topology(
                snapshot,
                policy,
            ).physical_cores[k].logical_cpus.contains(cpu) && #[trigger] topology(
                snapshot,
                policy,
            ).physical_cores[m].logical_cpus.contains(cpu) ==> k == m,
        forall|k: int|
            0 <= k < topology(snapshot, policy).physical_cores.len() ==> (#[trigger] topology(
                snapshot,
                policy,
            ).physical_cores[k]).logical_cpus.len() > 0 && ascending(
                topology(snapshot, policy).physical_cores[k].logical_cpus,
            ),
{
    let groups = core_groups(snapshot);
    let plain = outputs(classification(snapshot.online_cpus, groups, policy).cores);
    let cores = topology(snapshot, policy).physical_cores;
    let before = core_before();
    cores_partition_online_cpus(snapshot);
    lemma_classification_shape(snapshot, policy);
    lemma_outputs_are_distinct(snapshot, policy);
    crate::order::lemma_stable_sorted_permutes(plain, before);
    plain.lemma_multiset_has_no_duplicates();
    cores.lemma_multiset_has_no_duplicates_conv();
    assert forall|cpu: u32| #[trigger] snapshot.online_cpus.contains(cpu) implies exists|k: int|
        0 <= k < cores.len() && cores[k].logical_cpus.contains(cpu) by {
        let m = choose|m: int| 0 <= m < groups.len() && groups[m].output.logical_cpus.contains(cpu);
        assert(plain[m].logical_cpus == groups[m].output.logical_cpus);
        lemma_sorted_holds(plain, before, plain[m]);
        assert(plain.contains(plain[m]));
        let k = choose|k: int| 0 <= k < cores.len() && cores[k] == plain[m];
        assert(cores[k].logical_cpus.contains(cpu));
    }
    assert forall|cpu: u32|
        (exists|k: int| 0 <= k < cores.len() && cores[k].logical_cpus.contains(cpu)) implies
        #[trigger] snapshot.online_cpus.contains(cpu) by {
        let k = choose|k: int| 0 <= k < cores.len() && cores[k].logical_cpus.contains(cpu);
        let m = lemma_physical_core(snapshot, policy, k);
        assert(groups[m].output.logical_cpus.contains(cpu));
    }
    assert forall|k: int, m: int, cpu: u32|
        0 <= k < cores.len() && 0 <= m < cores.len()
            && #[trigger] cores[k].logical_cpus.contains(cpu)
            && #[trigger] cores[m].logical_cpus.contains(cpu) implies k == m by {
        let a = lemma_physical_core(snapshot, policy, k);
        let b = lemma_physical_core(snapshot, policy, m);
        assert(groups[a].output.logical_cpus.contains(cpu));
        assert(groups[b].output.logical_cpus.contains(cpu));
        assert(a == b);
        assert(cores[k] == cores[m]);
    }
    assert forall|k: int| 0 <= k < cores.len() implies (#[trigger] cores[k]).logical_cpus.len() > 0
        && ascending(cores[k].logical_cpus) by {
        let m = lemma_physical_core(snapshot, policy, k);
        assert(groups[m].output.logical_cpus.len() > 0);
    }
}

/// Confidence never exceeds certainty, of the topology and of each core.
pub proof fn confidence_is_bounded(snapshot: SysfsSnapshotView, policy: DetectorPolicy)
    ensures
        is_bounded(topology(snapshot, policy).confidence),
        forall|k: int|
            0 <= k < topology(snapshot, policy).physical_cores.len() ==> is_bounded(
                (#[trigger] topology(snapshot, policy).physical_cores[k]).confidence,
            ),
{
    let groups = core_groups(snapshot);
    let result = classification(snapshot.online_cpus, groups, policy);
    let plain = outputs(result.cores);
    let cores = stable_sorted(plain, core_before());
    assert forall|i: int| 0 <= i < groups.len() implies (#[trigger] groups[i]).output.confidence
        == single(0) by {}
    bounded_confidence_is_bounded(result.confidence);
    lemma_classification_keeps_cpus(snapshot.online_cpus, groups, policy);
    assert forall|k: int| 0 <= k < cores.len() implies is_bounded(
        (#[trigger] cores[k]).confidence,
    ) by {
        assert(cores.contains(cores[k]));
        lemma_sorted_holds(plain, core_before(), cores[k]);
        let m = choose|m: int| 0 <= m < plain.len() && plain[m] == cores[k];
        assert(result.cores[m].output == plain[m]);
    }
}

proof fn lemma_widths_of_none(cores: Seq<GroupedCoreView>)
    ensures
        widths(cores).len() > 0 ==> cores.len() > 0,
{
    if cores.len() == 0 {
        let sizes = cores.map_values(
            |core: GroupedCoreView| core.output.logical_cpus.len() as usize,
        );
        assert(sizes =~= Seq::empty());
        assert(stable_sorted(sizes, size_before()) =~= Seq::empty());
    }
}

/// A hybrid topology has both kinds of core, so that neither set is empty.
pub proof fn hybrid_has_both_classes(snapshot: SysfsSnapshotView, policy: DetectorPolicy)
    requires
        snapshot.well_formed(),
        topology(snapshot, policy).classification == TopologyClass::Hybrid,
    ensures
        topology(snapshot, policy).efficiency_cpus.len() > 0,
        topology(snapshot, policy).performance_cpus.len() > 0,
{
    let groups = core_groups(snapshot);
    let result = classification(snapshot.online_cpus, groups, policy);
    cores_partition_online_cpus(snapshot);
    lemma_classification_shape(snapshot, policy);
    let explicit = explicit_classification(groups, policy);
    let (slow, fast): (int, int) = if explicit is Some {
        (
            choose|i: int|
                0 <= i < groups.len() && #[trigger] groups[i].explicit_type == Some(
                    CoreTypeInterpretation::Efficiency,
                ),
            choose|i: int|
                0 <= i < groups.len() && #[trigger] groups[i].explicit_type == Some(
                    CoreTypeInterpretation::Performance,
                ),
        )
    } else {
        let speeds = ordered_speeds(groups);
        let split = strongest_step(speeds, speeds.len() as int)->0;
        let limit = speeds[split - 1];
        lemma_widths_of_none(groups.filter(is_slow(limit)));
        lemma_widths_of_none(groups.filter(is_fast(limit)));
        let a = groups.filter(is_slow(limit))[0];
        let b = groups.filter(is_fast(limit))[0];
        assert(groups.filter(is_slow(limit)).contains(a));
        assert(groups.filter(is_fast(limit)).contains(b));
        lemma_filter_holds(groups, is_slow(limit), a);
        lemma_filter_holds(groups, is_fast(limit), b);
        (
            choose|i: int| 0 <= i < groups.len() && groups[i] == a,
            choose|i: int| 0 <= i < groups.len() && groups[i] == b,
        )
    };
    assert(result.cores[slow].output.core_class == CoreClass::Efficiency);
    assert(result.cores[fast].output.core_class == CoreClass::Performance);
    lemma_class_nonempty(snapshot, policy, CoreClass::Efficiency, slow);
    lemma_class_nonempty(snapshot, policy, CoreClass::Performance, fast);
}

proof fn lemma_class_nonempty(
    snapshot: SysfsSnapshotView,
    policy: DetectorPolicy,
    class: CoreClass,
    k: int,
)
    requires
        snapshot.well_formed(),
        ({
            let result = classification(snapshot.online_cpus, core_groups(snapshot), policy);
            0 <= k < result.cores.len() && result.cores[k].output.core_class == class
        }),
    ensures
        ({
            let result = classification(snapshot.online_cpus, core_groups(snapshot), policy);
            sorted_set(
                class_cpus(stable_sorted(outputs(result.cores), core_before()), class),
            ).len() > 0
        }),
{
    let groups = core_groups(snapshot);
    let result = classification(snapshot.online_cpus, groups, policy);
    let all = class_cpus(stable_sorted(outputs(result.cores), core_before()), class);
    cores_partition_online_cpus(snapshot);
    lemma_classification_shape(snapshot, policy);
    assert(groups[k].output.logical_cpus.len() > 0);
    let cpu = result.cores[k].output.logical_cpus[0];
    assert(result.cores[k].output.logical_cpus.contains(cpu));
    lemma_class_members(snapshot, policy, class, cpu);
    crate::order::lemma_sorted_set(all);
    assert(sorted_set(all).contains(cpu));
}

} // verus!
