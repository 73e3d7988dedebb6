//! What the CPUs of a core come to, and what the cores come to as a system.
use vstd::prelude::*;

use super::detector::{
    all_metadata_complete, any_metadata, both_types, bounded_confidence, conservative_policy,
    double, class_cpus, classification, core_before, cpus_before, exactly_measured, explicit_class,
    explicit_classification, explicitly_uniform, outputs, size_before, topology, widths,
    without_repeats, DetectorPolicy, DEFAULT_CLUSTER_SPREAD, DEFAULT_CORES_PER_CLUSTER,
    DEFAULT_FREQUENCY_RATIO,
};
use super::grouping::{
    core_group, core_groups, fingerprints, frequencies, explicit_types, record_of, records_of,
    GroupedCoreView,
};
use super::laws::{
    cores_partition_online_cpus, lemma_class_members, lemma_class_set_member,
    lemma_classification_shape, lemma_physical_core, physical_cores_partition_online_cpus,
};
use super::parser::CoreTypeInterpretation;
use super::sysfs::{CpuRecordView, SysfsSnapshotView};
use super::types::{CoreClass, PhysicalCoreView, TopologyClass};
use crate::order::{
    lemma_sorted_holds, lemma_sorted_set, lemma_stable_sorted_order, lemma_stable_sorted_permutes,
    strict_weak_order, sorted_set, stable_sorted,
};

verus! {

/// Something holds of every CPU of a core.
pub open spec fn each_member(
    snapshot: SysfsSnapshotView,
    core: GroupedCoreView,
    holds: spec_fn(CpuRecordView) -> bool,
) -> bool {
    forall|i: int|
        0 <= i < snapshot.records.len() && core.output.logical_cpus.contains(
            (#[trigger] snapshot.records[i]).id,
        ) ==> holds(snapshot.records[i])
}

proof fn lemma_record_of(records: Seq<CpuRecordView>, i: int)
    requires
        0 <= i < records.len(),
        forall|a: int, b: int|
            0 <= a < b < records.len() ==> (#[trigger] records[a]).id != (#[trigger] records[b]).id,
    ensures
        record_of(records, records[i].id) == records[i],
    decreases records.len(),
{
    if i < records.len() - 1 {
        let front = records.drop_last();
        assert(records[i].id != records[records.len() - 1].id);
        assert(front[i] == records[i]);
        assert forall|a: int, b: int| 0 <= a < b < front.len() implies (#[trigger] front[a]).id != (
        #[trigger] front[b]).id by {
            assert(front[a] == records[a] && front[b] == records[b]);
        }
        lemma_record_of(front, i);
    }
}

proof fn lemma_every_part<A, B>(s: Seq<A>, f: spec_fn(A) -> Option<B>)
    ensures
        s.filter_map(f).len() <= s.len(),
        s.filter_map(f).len() == s.len() <==> forall|i: int|
            0 <= i < s.len() ==> f(#[trigger] s[i]) is Some,
        s.filter_map(f).len() == s.len() ==> forall|i: int|
            #![trigger s[i]]
            #![trigger s.filter_map(f)[i]]
            0 <= i < s.len() ==> f(s[i]) == Some(s.filter_map(f)[i]),
    decreases s.len(),
{
    reveal(Seq::filter_map);
    if s.len() > 0 {
        let front = s.drop_last();
        lemma_every_part(front, f);
        assert forall|i: int| 0 <= i < front.len() implies front[i] == s[i] by {}
        assert(s.last() == s[s.len() - 1]);
        if s.filter_map(f).len() == s.len() {
            assert(f(s.last()) is Some);
            assert forall|i: int| #![trigger s[i]] 0 <= i < s.len() implies f(s[i]) == Some(
                s.filter_map(f)[i],
            ) by {
                if i < front.len() {
                    assert(front[i] == s[i]);
                }
            }
        }
        if forall|i: int| 0 <= i < s.len() ==> f(#[trigger] s[i]) is Some {
            assert forall|i: int| 0 <= i < front.len() implies f(#[trigger] front[i]) is Some by {
                assert(front[i] == s[i]);
            }
        }
    }
}

/// The records of a core's CPUs are theirs.
#[verifier::spinoff_prover]
#[verifier::rlimit(60)]
proof fn lemma_members(
    snapshot: SysfsSnapshotView,
    k: int,
    holds: spec_fn(CpuRecordView) -> bool,
)
    requires
        snapshot.well_formed(),
        0 <= k < core_groups(snapshot).len(),
    ensures
        ({
            let cpus = core_groups(snapshot)[k].output.logical_cpus;
            let records = records_of(snapshot.records, cpus);
            &&& core_groups(snapshot)[k] == core_group(cpus, snapshot.records)
            &&& records.len() == cpus.len()
            &&& cpus.len() > 0
            &&& each_member(snapshot, core_groups(snapshot)[k], holds) <==> forall|j: int|
                0 <= j < records.len() ==> holds(#[trigger] records[j])
        }),
{
    let core = core_groups(snapshot)[k];
    let cpus = core.output.logical_cpus;
    let all = snapshot.records;
    let online = snapshot.online_cpus;
    let records = records_of(all, cpus);
    cores_partition_online_cpus(snapshot);
    assert forall|a: int, b: int| 0 <= a < b < all.len() implies (#[trigger] all[a]).id != (
    #[trigger] all[b]).id by {
        assert(online[a] < online[b]);
    }
    assert forall|j: int| 0 <= j < cpus.len() implies exists|i: int|
        0 <= i < all.len() && #[trigger] all[i] == #[trigger] records[j] && all[i].id
            == cpus[j] by {
        assert(cpus.contains(cpus[j]));
        assert(online.contains(cpus[j]));
        let i = choose|i: int| 0 <= i < online.len() && online[i] == cpus[j];
        assert(all[i].id == cpus[j]);
        lemma_record_of(all, i);
    }
    if each_member(snapshot, core, holds) {
        assert forall|j: int| 0 <= j < records.len() implies holds(#[trigger] records[j]) by {
            let i = choose|i: int|
                0 <= i < all.len() && #[trigger] all[i] == records[j] && all[i].id == cpus[j];
            assert(cpus.contains(all[i].id));
        }
    }
    if forall|j: int| 0 <= j < records.len() ==> holds(#[trigger] records[j]) {
        assert forall|i: int|
            0 <= i < all.len() && cpus.contains((#[trigger] all[i]).id) implies holds(all[i]) by {
            let j = choose|j: int| 0 <= j < cpus.len() && cpus[j] == all[i].id;
            lemma_record_of(all, i);
            assert(records[j] == all[i]);
        }
    }
}

/// A core has an identifier, a type, a frequency and a cache layout exactly
/// where every one of its CPUs has the same; and type metadata where one of
/// them has.
pub proof fn cores_have_what_all_their_cpus_have(
    snapshot: SysfsSnapshotView,
    k: int,
    id: u32,
    core_type: CoreTypeInterpretation,
    speed: u64,
    cache: Seq<char>,
)
    requires
        snapshot.well_formed(),
        0 <= k < core_groups(snapshot).len(),
    ensures
        ({
            let core = core_groups(snapshot)[k];
            &&& core.output.package_id == Some(id) <==> each_member(
                snapshot,
                core,
                |r: CpuRecordView| r.package_id == Some(id),
            )
            &&& core.output.core_id == Some(id) <==> each_member(
                snapshot,
                core,
                |r: CpuRecordView| r.core_id == Some(id),
            )
            &&& core.complete_explicit_type && core.explicit_type == Some(core_type)
                <==> each_member(
                snapshot,
                core,
                |r: CpuRecordView| r.explicit_type == Some(core_type),
            )
            &&& core.complete_frequency && core.max_frequency_khz == Some(speed) <==> each_member(
                snapshot,
                core,
                |r: CpuRecordView| r.max_frequency_khz == Some(speed),
            )
            &&& core.cache_fingerprint == Some(cache) <==> each_member(
                snapshot,
                core,
                |r: CpuRecordView| r.cache_fingerprint == Some(cache),
            )
            &&& !core.core_type_metadata_present <==> each_member(
                snapshot,
                core,
                |r: CpuRecordView| !r.core_type_metadata_present,
            )
            &&& core.complete_explicit_type ==> core.explicit_type is Some
            &&& core.complete_frequency <==> core.max_frequency_khz is Some
        }),
{
    let core = core_groups(snapshot)[k];
    let records = records_of(snapshot.records, core.output.logical_cpus);
    lemma_members(snapshot, k, |r: CpuRecordView| r.package_id == Some(id));
    lemma_members(snapshot, k, |r: CpuRecordView| r.core_id == Some(id));
    lemma_members(snapshot, k, |r: CpuRecordView| r.explicit_type == Some(core_type));
    lemma_members(snapshot, k, |r: CpuRecordView| r.max_frequency_khz == Some(speed));
    lemma_members(snapshot, k, |r: CpuRecordView| r.cache_fingerprint == Some(cache));
    lemma_members(snapshot, k, |r: CpuRecordView| !r.core_type_metadata_present);
    let packages = super::grouping::package_ids(records);
    let cores = super::grouping::core_ids(records);
    assert forall|j: int| 0 <= j < records.len() implies #[trigger] packages[j]
        == records[j].package_id by {}
    assert forall|j: int| 0 <= j < records.len() implies #[trigger] cores[j]
        == records[j].core_id by {}
    assert(records[0] == records[0]);
    assert(core.output.package_id == Some(id) <==> forall|j: int|
        0 <= j < records.len() ==> (#[trigger] records[j]).package_id == Some(id)) by {
        if forall|j: int|
            0 <= j < records.len() ==> (#[trigger] records[j]).package_id == Some(id) {
            assert(packages[0] == Some(id));
        }
        if core.output.package_id == Some(id) {
            assert forall|j: int| 0 <= j < records.len() implies (
            #[trigger] records[j]).package_id == Some(id) by {
                assert(packages[j] == packages[0]);
            }
        }
    }
    assert(core.output.core_id == Some(id) <==> forall|j: int|
        0 <= j < records.len() ==> (#[trigger] records[j]).core_id == Some(id)) by {
        if forall|j: int| 0 <= j < records.len() ==> (#[trigger] records[j]).core_id == Some(id) {
            assert(cores[0] == Some(id));
        }
        if core.output.core_id == Some(id) {
            assert forall|j: int| 0 <= j < records.len() implies (#[trigger] records[j]).core_id
                == Some(id) by {
                assert(cores[j] == cores[0]);
            }
        }
    }
    lemma_every_part(records, |r: CpuRecordView| r.explicit_type);
    lemma_every_part(records, |r: CpuRecordView| r.max_frequency_khz);
    lemma_every_part(records, |r: CpuRecordView| r.cache_fingerprint);
    lemma_common(records, explicit_types(records), |r: CpuRecordView| r.explicit_type, core_type);
    lemma_common(records, frequencies(records), |r: CpuRecordView| r.max_frequency_khz, speed);
    lemma_common(records, fingerprints(records), |r: CpuRecordView| r.cache_fingerprint, cache);
}

proof fn lemma_common<B>(
    records: Seq<CpuRecordView>,
    values: Seq<B>,
    f: spec_fn(CpuRecordView) -> Option<B>,
    value: B,
)
    requires
        records.len() > 0,
        values == records.filter_map(f),
    ensures
        values.len() == records.len() && super::grouping::all_same(values) == Some(value)
            <==> forall|j: int| 0 <= j < records.len() ==> f(#[trigger] records[j]) == Some(value),
{
    lemma_every_part(records, f);
    if values.len() == records.len() && super::grouping::all_same(values) == Some(value) {
        assert forall|j: int| 0 <= j < records.len() implies f(#[trigger] records[j]) == Some(
            value,
        ) by {
            assert(values[j] == values[0]);
        }
    }
    if forall|j: int| 0 <= j < records.len() ==> f(#[trigger] records[j]) == Some(value) {
        assert forall|j: int| 0 <= j < values.len() implies #[trigger] values[j] == value by {
            assert(f(records[j]) == Some(values[j]));
        }
    }
}

proof fn lemma_class_of_cpu(
    snapshot: SysfsSnapshotView,
    policy: DetectorPolicy,
    class: CoreClass,
    k: int,
    cpu: u32,
)
    requires
        snapshot.well_formed(),
        0 <= k < core_groups(snapshot).len(),
        core_groups(snapshot)[k].output.logical_cpus.contains(cpu),
    ensures
        ({
            let result = classification(snapshot.online_cpus, core_groups(snapshot), policy);
            sorted_set(
                class_cpus(stable_sorted(outputs(result.cores), core_before()), class),
            ).contains(cpu) <==> result.cores[k].output.core_class == class
        }),
{
    let groups = core_groups(snapshot);
    let result = classification(snapshot.online_cpus, groups, policy);
    let all = class_cpus(stable_sorted(outputs(result.cores), core_before()), class);
    lemma_classification_shape(snapshot, policy);
    lemma_sorted_set(all);
    if sorted_set(all).contains(cpu) {
        let m = lemma_class_set_member(snapshot, policy, class, cpu);
        cores_partition_online_cpus(snapshot);
        assert(m == k);
    }
    if result.cores[k].output.core_class == class {
        assert(result.cores[k].output.logical_cpus.contains(cpu));
        lemma_class_members(snapshot, policy, class, cpu);
    }
}

/// Where the CPUs of every core state one type, be it of performance or of
/// efficiency, and there are cores of both, the topology is hybrid, and the CPUs
/// of each class are exactly those that state its type.
pub proof fn stated_types_make_the_classes(
    snapshot: SysfsSnapshotView,
    policy: DetectorPolicy,
    slow: int,
    fast: int,
    k: int,
    i: int,
)
    requires
        snapshot.well_formed(),
        stated_throughout(snapshot),
        0 <= slow < core_groups(snapshot).len(),
        0 <= fast < core_groups(snapshot).len(),
        states(snapshot, slow, CoreTypeInterpretation::Efficiency),
        states(snapshot, fast, CoreTypeInterpretation::Performance),
        0 <= k < core_groups(snapshot).len(),
        0 <= i < snapshot.records.len(),
        core_groups(snapshot)[k].output.logical_cpus.contains(snapshot.records[i].id),
    ensures
        topology(snapshot, policy).classification == TopologyClass::Hybrid,
        topology(snapshot, policy).efficiency_cpus.contains(snapshot.records[i].id)
            <==> snapshot.records[i].explicit_type == Some(CoreTypeInterpretation::Efficiency),
        topology(snapshot, policy).performance_cpus.contains(snapshot.records[i].id)
            <==> snapshot.records[i].explicit_type == Some(CoreTypeInterpretation::Performance),
{
    let groups = core_groups(snapshot);
    let cpu = snapshot.records[i].id;
    lemma_stated(snapshot);
    lemma_stated_core(snapshot, slow, CoreTypeInterpretation::Efficiency);
    lemma_stated_core(snapshot, fast, CoreTypeInterpretation::Performance);
    assert(groups[slow].explicit_type == Some(CoreTypeInterpretation::Efficiency));
    assert(groups[fast].explicit_type == Some(CoreTypeInterpretation::Performance));
    assert(all_metadata_complete(groups));
    assert(both_types(groups));
    assert(any_metadata(groups)) by {
        assert(groups[slow].core_type_metadata_present);
    }
    lemma_class_of_cpu(snapshot, policy, CoreClass::Efficiency, k, cpu);
    lemma_class_of_cpu(snapshot, policy, CoreClass::Performance, k, cpu);
    let result = classification(snapshot.online_cpus, groups, policy);
    assert(result.cores[k].output.core_class == explicit_class(groups[k]));
    if states(snapshot, k, CoreTypeInterpretation::Efficiency) {
        lemma_stated_core(snapshot, k, CoreTypeInterpretation::Efficiency);
    } else {
        lemma_stated_core(snapshot, k, CoreTypeInterpretation::Performance);
    }
}

/// All the CPUs of a core state the type.
pub open spec fn states(
    snapshot: SysfsSnapshotView,
    k: int,
    core_type: CoreTypeInterpretation,
) -> bool {
    each_member(
        snapshot,
        core_groups(snapshot)[k],
        |r: CpuRecordView| r.explicit_type == Some(core_type) && r.core_type_metadata_present,
    )
}

pub open spec fn stated_throughout(snapshot: SysfsSnapshotView) -> bool {
    forall|k: int|
        #![trigger core_groups(snapshot)[k]]
        0 <= k < core_groups(snapshot).len() ==> states(
            snapshot,
            k,
            CoreTypeInterpretation::Performance,
        ) || states(snapshot, k, CoreTypeInterpretation::Efficiency)
}

proof fn lemma_stated_core(snapshot: SysfsSnapshotView, k: int, core_type: CoreTypeInterpretation)
    requires
        snapshot.well_formed(),
        0 <= k < core_groups(snapshot).len(),
        states(snapshot, k, core_type),
    ensures
        core_groups(snapshot)[k].complete_explicit_type,
        core_groups(snapshot)[k].explicit_type == Some(core_type),
        core_groups(snapshot)[k].core_type_metadata_present,
{
    let core = core_groups(snapshot)[k];
    cores_have_what_all_their_cpus_have(snapshot, k, 0, core_type, 0, Seq::empty());
    assert(each_member(snapshot, core, |r: CpuRecordView| r.explicit_type == Some(core_type)));
    cores_partition_online_cpus(snapshot);
    let cpu = core.output.logical_cpus[0];
    assert(core.output.logical_cpus.len() > 0);
    assert(core.output.logical_cpus.contains(cpu));
    assert(snapshot.online_cpus.contains(cpu));
    let i = choose|i: int|
        0 <= i < snapshot.online_cpus.len() && snapshot.online_cpus[i] == cpu;
    assert(snapshot.records[i].id == cpu);
    assert(snapshot.records[i].core_type_metadata_present);
}

proof fn lemma_stated(snapshot: SysfsSnapshotView)
    requires
        snapshot.well_formed(),
        stated_throughout(snapshot),
    ensures
        forall|k: int|
            0 <= k < core_groups(snapshot).len() ==> {
                let core = #[trigger] core_groups(snapshot)[k];
                &&& core.complete_explicit_type
                &&& core.explicit_type == Some(CoreTypeInterpretation::Performance)
                    || core.explicit_type == Some(CoreTypeInterpretation::Efficiency)
                &&& core.core_type_metadata_present
            },
{
    assert forall|k: int| 0 <= k < core_groups(snapshot).len() implies ({
        let core = #[trigger] core_groups(snapshot)[k];
        &&& core.complete_explicit_type
        &&& core.explicit_type == Some(CoreTypeInterpretation::Performance) || core.explicit_type
            == Some(CoreTypeInterpretation::Efficiency)
        &&& core.core_type_metadata_present
    }) by {
        if states(snapshot, k, CoreTypeInterpretation::Performance) {
            lemma_stated_core(snapshot, k, CoreTypeInterpretation::Performance);
        } else {
            lemma_stated_core(snapshot, k, CoreTypeInterpretation::Efficiency);
        }
    }
}

/// Where the CPUs of all cores state one and the same type, the topology is
/// uniform.
pub proof fn one_stated_type_is_uniform(
    snapshot: SysfsSnapshotView,
    policy: DetectorPolicy,
    core_type: CoreTypeInterpretation,
)
    requires
        snapshot.well_formed(),
        forall|k: int|
            #![trigger core_groups(snapshot)[k]]
            0 <= k < core_groups(snapshot).len() ==> states(snapshot, k, core_type),
    ensures
        topology(snapshot, policy).classification == TopologyClass::Uniform,
        forall|k: int|
            0 <= k < topology(snapshot, policy).physical_cores.len() ==> (#[trigger] topology(
                snapshot,
                policy,
            ).physical_cores[k]).core_class == CoreClass::Uniform,
{
    let groups = core_groups(snapshot);
    cores_partition_online_cpus(snapshot);
    assert forall|k: int| 0 <= k < groups.len() implies (
    #[trigger] groups[k]).complete_explicit_type && groups[k].explicit_type == Some(core_type)
        && groups[k].core_type_metadata_present by {
        lemma_stated_core(snapshot, k, core_type);
    }
    assert(snapshot.online_cpus.contains(snapshot.online_cpus[0]));
    let some = choose|k: int|
        0 <= k < groups.len() && groups[k].output.logical_cpus.contains(snapshot.online_cpus[0]);
    assert(any_metadata(groups)) by {
        assert(groups[some].core_type_metadata_present);
    }
    assert(all_metadata_complete(groups));
    assert(!both_types(groups));
    let result = classification(snapshot.online_cpus, groups, policy);
    assert forall|k: int| 0 <= k < topology(snapshot, policy).physical_cores.len() implies (
    #[trigger] topology(snapshot, policy).physical_cores[k]).core_class == CoreClass::Uniform by {
        let m = lemma_physical_core(snapshot, policy, k);
        assert(outputs(result.cores)[m] == explicitly_uniform(groups[m]).output);
    }
}

/// In a hybrid topology every online CPU is in one of the two classes. Where
/// the types were not stated, each efficiency CPU is on a core that is slower
/// than that of each performance CPU.
pub proof fn hybrid_classes_part_the_cpus(
    snapshot: SysfsSnapshotView,
    policy: DetectorPolicy,
    a: int,
    b: int,
    one: u32,
    other: u32,
)
    requires
        snapshot.well_formed(),
        topology(snapshot, policy).classification == TopologyClass::Hybrid,
        0 <= a < core_groups(snapshot).len(),
        0 <= b < core_groups(snapshot).len(),
        core_groups(snapshot)[a].output.logical_cpus.contains(one),
        core_groups(snapshot)[b].output.logical_cpus.contains(other),
    ensures
        topology(snapshot, policy).efficiency_cpus.contains(one) || topology(
            snapshot,
            policy,
        ).performance_cpus.contains(one),
        explicit_classification(core_groups(snapshot), policy) is None && topology(
            snapshot,
            policy,
        ).efficiency_cpus.contains(one) && topology(snapshot, policy).performance_cpus.contains(
            other,
        ) ==> core_groups(snapshot)[a].max_frequency_khz is Some && core_groups(
            snapshot,
        )[b].max_frequency_khz is Some && core_groups(snapshot)[a].max_frequency_khz->0
            < core_groups(snapshot)[b].max_frequency_khz->0,
{
    let groups = core_groups(snapshot);
    let result = classification(snapshot.online_cpus, groups, policy);
    lemma_class_of_cpu(snapshot, policy, CoreClass::Efficiency, a, one);
    lemma_class_of_cpu(snapshot, policy, CoreClass::Performance, a, one);
    lemma_class_of_cpu(snapshot, policy, CoreClass::Performance, b, other);
    cores_have_what_all_their_cpus_have(
        snapshot,
        a,
        0,
        CoreTypeInterpretation::Performance,
        0,
        Seq::empty(),
    );
    cores_have_what_all_their_cpus_have(
        snapshot,
        b,
        0,
        CoreTypeInterpretation::Performance,
        0,
        Seq::empty(),
    );
    if explicit_classification(groups, policy) is None {
        assert(exactly_measured(groups[a]));
        assert(exactly_measured(groups[b]));
    } else {
        assert(result.cores[a].output.core_class == explicit_class(groups[a]));
    }
}

/// Without a stated type and without the pattern of a hybrid system, a topology
/// is uniform exactly where every core is grouped for certain and all cores
/// have equally many CPUs; else it stays unknown.
#[verifier::spinoff_prover]
#[verifier::rlimit(40)]
pub proof fn plain_topologies_are_uniform_or_unknown(
    snapshot: SysfsSnapshotView,
    policy: DetectorPolicy,
)
    requires
        snapshot.well_formed(),
        forall|i: int|
            0 <= i < snapshot.records.len() ==> !(
            #[trigger] snapshot.records[i]).core_type_metadata_present,
        topology(snapshot, policy).classification != TopologyClass::Hybrid,
    ensures
        topology(snapshot, policy).classification == TopologyClass::Uniform <==> {
            &&& forall|k: int|
                0 <= k < core_groups(snapshot).len() ==> (#[trigger] core_groups(
                    snapshot,
                )[k]).exact_grouping
            &&& forall|k: int, m: int|
                0 <= k < core_groups(snapshot).len() && 0 <= m < core_groups(snapshot).len()
                    ==> same_width(
                    #[trigger] core_groups(snapshot)[k],
                    #[trigger] core_groups(snapshot)[m],
                )
        },
        topology(snapshot, policy).classification != TopologyClass::Uniform ==> topology(
            snapshot,
            policy,
        ).classification == TopologyClass::Unknown,
{
    let groups = core_groups(snapshot);
    assert forall|k: int| 0 <= k < groups.len() implies !(
    #[trigger] groups[k]).core_type_metadata_present by {
        cores_have_what_all_their_cpus_have(
            snapshot,
            k,
            0,
            CoreTypeInterpretation::Performance,
            0,
            Seq::empty(),
        );
        assert(each_member(
            snapshot,
            groups[k],
            |r: CpuRecordView| !r.core_type_metadata_present,
        ));
    }
    assert(!any_metadata(groups));
    cores_partition_online_cpus(snapshot);
    assert(snapshot.online_cpus.contains(snapshot.online_cpus[0]));
    lemma_plain(snapshot.online_cpus, groups, policy);
    lemma_one_width(groups);
}

proof fn lemma_plain(online: Seq<u32>, cores: Seq<GroupedCoreView>, policy: DetectorPolicy)
    requires
        !any_metadata(cores),
        classification(online, cores, policy).classification != TopologyClass::Hybrid,
    ensures
        classification(online, cores, policy).classification == TopologyClass::Uniform <==> (
        forall|k: int| 0 <= k < cores.len() ==> (#[trigger] cores[k]).exact_grouping) && widths(
            cores,
        ).len() == 1,
        classification(online, cores, policy).classification == TopologyClass::Uniform
            || classification(online, cores, policy).classification == TopologyClass::Unknown,
{
}

proof fn lemma_without_repeats(s: Seq<usize>)
    ensures
        s.len() > 0 ==> without_repeats(s).len() > 0 && without_repeats(s).last() == s.last(),
        s.len() == 0 ==> without_repeats(s).len() == 0,
        without_repeats(s).len() == 1 <==> s.len() > 0 && forall|i: int|
            0 <= i < s.len() ==> #[trigger] s[i] == s.last(),
    decreases s.len(),
{
    if s.len() > 0 {
        let front = s.drop_last();
        lemma_without_repeats(front);
        if without_repeats(s).len() == 1 {
            assert forall|i: int| 0 <= i < s.len() implies #[trigger] s[i] == s.last() by {
                if i < front.len() {
                    assert(front[i] == s[i]);
                }
            }
        }
        if forall|i: int| 0 <= i < s.len() ==> #[trigger] s[i] == s.last() {
            assert forall|i: int| 0 <= i < front.len() implies #[trigger] front[i]
                == front.last() by {
                assert(front[i] == s[i] && front.last() == s[front.len() - 1]);
            }
            if front.len() > 0 {
                assert(front.last() == s[front.len() - 1]);
            }
        }
    }
}

proof fn lemma_one_width(cores: Seq<GroupedCoreView>)
    requires
        cores.len() > 0,
    ensures
        widths(cores).len() == 1 <==> forall|k: int, m: int|
            0 <= k < cores.len() && 0 <= m < cores.len() ==> same_width(
                #[trigger] cores[k],
                #[trigger] cores[m],
            ),
{
    let sizes = cores.map_values(|core: GroupedCoreView| core.output.logical_cpus.len() as usize);
    let ordered = stable_sorted(sizes, size_before());
    lemma_without_repeats(ordered);
    lemma_stable_sorted_permutes(sizes, size_before());
    assert(ordered.len() == sizes.len());
    if widths(cores).len() == 1 {
        assert forall|k: int, m: int| 0 <= k < cores.len() && 0 <= m < cores.len() implies
            same_width(#[trigger] cores[k], #[trigger] cores[m]) by {
            lemma_sorted_holds(sizes, size_before(), sizes[k]);
            lemma_sorted_holds(sizes, size_before(), sizes[m]);
            assert(sizes.contains(sizes[k]) && sizes.contains(sizes[m]));
            let i = choose|i: int| 0 <= i < ordered.len() && ordered[i] == sizes[k];
            let j = choose|j: int| 0 <= j < ordered.len() && ordered[j] == sizes[m];
            assert(ordered[i] == ordered[j]);
        }
    }
    if forall|k: int, m: int|
        0 <= k < cores.len() && 0 <= m < cores.len() ==> same_width(
            #[trigger] cores[k],
            #[trigger] cores[m],
        ) {
        assert forall|i: int| 0 <= i < ordered.len() implies #[trigger] ordered[i]
            == ordered.last() by {
            lemma_sorted_holds(sizes, size_before(), ordered[i]);
            lemma_sorted_holds(sizes, size_before(), ordered.last());
            assert(ordered.contains(ordered[i]) && ordered.contains(ordered.last()));
            let k = choose|k: int| 0 <= k < sizes.len() && sizes[k] == ordered[i];
            let m = choose|m: int| 0 <= m < sizes.len() && sizes[m] == ordered.last();
            assert(same_width(cores[k], cores[m]));
        }
    }
}

/// Two cores have equally many CPUs.
pub open spec fn same_width(a: GroupedCoreView, b: GroupedCoreView) -> bool {
    a.output.logical_cpus.len() as usize == b.output.logical_cpus.len() as usize
}

/// Where an identifier stands in the order: what is unknown comes last.
pub open spec fn place(id: Option<u32>) -> int {
    match id {
        Some(n) => n as int,
        None => u32::MAX as int,
    }
}

/// The cores of a topology are in the order of their packages, then of their
/// own identifiers, and where these are the same in that of their least CPUs.
pub proof fn cores_are_in_order(
    snapshot: SysfsSnapshotView,
    policy: DetectorPolicy,
    i: int,
    j: int,
)
    requires
        snapshot.well_formed(),
        0 <= i < j < topology(snapshot, policy).physical_cores.len(),
    ensures
        ({
            let a = topology(snapshot, policy).physical_cores[i];
            let b = topology(snapshot, policy).physical_cores[j];
            &&& place(a.package_id) <= place(b.package_id)
            &&& place(a.package_id) == place(b.package_id) ==> place(a.core_id) <= place(b.core_id)
            &&& place(a.package_id) == place(b.package_id) && place(a.core_id) == place(b.core_id)
                ==> a.logical_cpus[0] < b.logical_cpus[0]
        }),
{
    let result = classification(snapshot.online_cpus, core_groups(snapshot), policy);
    let plain = outputs(result.cores);
    let cores = topology(snapshot, policy).physical_cores;
    let before = core_before();
    lemma_core_order();
    lemma_stable_sorted_order(plain, before);
    physical_cores_partition_online_cpus(snapshot, policy);
    let a = cores[i];
    let b = cores[j];
    assert(!before(b, a));
    assert(a.logical_cpus.len() > 0 && b.logical_cpus.len() > 0);
    if a.logical_cpus[0] == b.logical_cpus[0] {
        let cpu = a.logical_cpus[0];
        assert(a.logical_cpus.contains(cpu));
        assert(b.logical_cpus.contains(cpu));
        assert(i == j);
    }
}

proof fn lemma_cpus_asymmetric(a: Seq<u32>, b: Seq<u32>)
    ensures
        cpus_before(a, b) ==> !cpus_before(b, a),
    decreases a.len(),
{
    if a.len() > 0 && b.len() > 0 {
        lemma_cpus_asymmetric(a.drop_first(), b.drop_first());
    }
}

proof fn lemma_cpus_order(a: Seq<u32>, b: Seq<u32>, c: Seq<u32>)
    ensures
        !cpus_before(a, b) && !cpus_before(b, c) ==> !cpus_before(a, c),
    decreases a.len(),
{
    if a.len() > 0 && b.len() > 0 && c.len() > 0 {
        lemma_cpus_order(a.drop_first(), b.drop_first(), c.drop_first());
    }
}

proof fn lemma_core_order()
    ensures
        strict_weak_order(core_before()),
{
    let before = core_before();
    assert forall|a: PhysicalCoreView, b: PhysicalCoreView| #[trigger] before(a, b) implies !before(
        b,
        a,
    ) by {
        lemma_cpus_asymmetric(a.logical_cpus, b.logical_cpus);
    }
    assert forall|a: PhysicalCoreView, b: PhysicalCoreView, c: PhysicalCoreView|
        #![trigger before(a, b), before(b, c)]
        !before(a, b) && !before(b, c) implies !before(a, c) by {
        lemma_cpus_order(a.logical_cpus, b.logical_cpus, c.logical_cpus);
    }
}

/// A core is grouped for certain exactly where every list of siblings on it
/// names the CPUs of the core and no others, and there is such a list or all
/// its CPUs have the same package and the same core.
pub proof fn certain_cores_are_as_their_siblings_say(
    snapshot: SysfsSnapshotView,
    k: int,
)
    requires
        snapshot.well_formed(),
        0 <= k < core_groups(snapshot).len(),
    ensures
        ({
            let core = core_groups(snapshot)[k];
            let listed = !each_member(snapshot, core, |r: CpuRecordView| r.siblings is None);
            let identified = core.output.package_id is Some && core.output.core_id is Some;
            core.exact_grouping <==> (listed || identified) && each_member(
                snapshot,
                core,
                |r: CpuRecordView|
                    r.siblings is None || r.siblings == Some(core.output.logical_cpus),
            )
        }),
{
    let core = core_groups(snapshot)[k];
    let cpus = core.output.logical_cpus;
    let records = records_of(snapshot.records, cpus);
    lemma_members(snapshot, k, |r: CpuRecordView| r.siblings is None);
    lemma_members(snapshot, k, |r: CpuRecordView| r.siblings is None || r.siblings == Some(cpus));
}

/// A topology is as certain as the policy says for the way in which it was
/// found hybrid, and so is each of its cores.
pub proof fn confidence_is_that_of_the_policy(
    snapshot: SysfsSnapshotView,
    policy: DetectorPolicy,
    k: int,
)
    requires
        snapshot.well_formed(),
        topology(snapshot, policy).classification == TopologyClass::Hybrid,
        0 <= k < topology(snapshot, policy).physical_cores.len(),
    ensures
        ({
            let confidence = if explicit_classification(core_groups(snapshot), policy) is Some {
                policy.explicit_hybrid_confidence
            } else {
                policy.heuristic_hybrid_confidence
            };
            &&& topology(snapshot, policy).confidence == bounded_confidence(confidence)
            &&& topology(snapshot, policy).physical_cores[k].confidence == bounded_confidence(
                confidence,
            )
        }),
{
    let groups = core_groups(snapshot);
    let result = classification(snapshot.online_cpus, groups, policy);
    let m = lemma_physical_core(snapshot, policy, k);
    cores_have_what_all_their_cpus_have(
        snapshot,
        m,
        0,
        CoreTypeInterpretation::Performance,
        0,
        Seq::empty(),
    );
    assert(outputs(result.cores)[m] == result.cores[m].output);
    if explicit_classification(groups, policy) is None {
        assert(exactly_measured(groups[m]));
    }
}

/// A policy that is as strict as the defaults, or stricter, is kept.
pub proof fn stricter_policies_are_kept(policy: DetectorPolicy)
    requires
        policy.minimum_frequency_ratio.finite(),
        !policy.minimum_frequency_ratio.negative(),
        policy.minimum_frequency_ratio.units() > double(DEFAULT_FREQUENCY_RATIO).units(),
        policy.maximum_cluster_spread.finite(),
        !policy.maximum_cluster_spread.negative(),
        policy.maximum_cluster_spread.units() <= double(DEFAULT_CLUSTER_SPREAD).units(),
        policy.minimum_cores_per_cluster >= DEFAULT_CORES_PER_CLUSTER,
    ensures
        ({
            let safe = conservative_policy(policy);
            &&& safe.minimum_frequency_ratio == policy.minimum_frequency_ratio
            &&& safe.maximum_cluster_spread == policy.maximum_cluster_spread
            &&& safe.minimum_cores_per_cluster == policy.minimum_cores_per_cluster
        }),
{
}

} // verus!
