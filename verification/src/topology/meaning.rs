//! What detection makes of the files of the CPU directory.
use vstd::prelude::*;

use super::detector::{detection, topology, DetectorPolicy};
use super::grouping::{
    core_groups, directly_joined, is_chain, is_first, same_core, same_core_symmetric,
    same_core_transitive, shares_core,
};
use super::parser::{core_type, cpu_list, CoreTypeInterpretation, CoreTypeErrorView};
use super::sysfs::{
    candidate_cpus, core_type_record, counts_as_online, cpu_path, cpu_record, frequency_file,
    max_frequency, online_cpus, online_flag, sibling_file, siblings, sysfs_snapshot, topology_id,
    RootStatus, SysfsSnapshotView,
};
use super::types::{CpuTopologyView, DetectorErrorView};
use crate::order::lemma_filter_holds;
use crate::path::{child, FileReadView, FileTreeView};
use crate::text::{signed_value, trim, unsigned_value};

verus! {

/// A file lists CPUs and names the given one among them.
pub open spec fn lists_cpu(tree: FileTreeView, path: Seq<u8>, cpu: u32) -> bool {
    &&& tree.read(path) matches FileReadView::Contents(text)
    &&& cpu_list(text) matches Ok(listed)
    &&& listed.contains(cpu)
}

/// The CPUs that a file lists.
pub open spec fn listed_cpus_of(tree: FileTreeView, path: Seq<u8>) -> Seq<u32> {
    cpu_list(tree.read(path)->Contents_0)->Ok_0
}

/// Some CPUs are exactly the online ones among others.
pub open spec fn online_among(found: Seq<u32>, listed: Seq<u32>, online: Seq<u32>) -> bool {
    forall|x: u32| #[trigger] found.contains(x) <==> listed.contains(x) && online.contains(x)
}

pub open spec fn topology_file(root: Seq<u8>, cpu: u32, name: Seq<char>) -> Seq<u8> {
    child(child(cpu_path(root, cpu), "topology"@), name)
}

proof fn lemma_sibling_file(
    tree: FileTreeView,
    topology: Seq<u8>,
    filename: Seq<char>,
    cpu: u32,
    online: Seq<u32>,
)
    ensures
        sibling_file(tree, topology, filename, cpu, online).0 is Some <==> lists_cpu(
            tree,
            child(topology, filename),
            cpu,
        ),
        sibling_file(tree, topology, filename, cpu, online).0 matches Some(found) ==> online_among(
            found,
            listed_cpus_of(tree, child(topology, filename)),
            online,
        ),
{
    let path = child(topology, filename);
    if lists_cpu(tree, path, cpu) {
        let listed = listed_cpus_of(tree, path);
        let keep = super::sysfs::member_is(online, true);
        let found = listed.filter(keep);
        assert forall|x: u32| #[trigger] found.contains(x) <==> listed.contains(x)
            && online.contains(x) by {
            lemma_filter_holds(listed, keep, x);
        }
    }
}

/// The siblings of a CPU are exactly the online ones of the CPUs that its
/// `core_cpus_list` names, where that file lists CPUs and this one among them;
/// else those that `thread_siblings_list` names, under the same condition; and
/// else they are unknown.
pub proof fn siblings_are_the_listed_online_cpus(
    tree: FileTreeView,
    root: Seq<u8>,
    cpu: u32,
    online: Seq<u32>,
)
    ensures
        ({
            let first = topology_file(root, cpu, "core_cpus_list"@);
            let second = topology_file(root, cpu, "thread_siblings_list"@);
            let found = cpu_record(tree, root, cpu, online).siblings;
            if lists_cpu(tree, first, cpu) {
                found is Some && online_among(found->0, listed_cpus_of(tree, first), online)
            } else if lists_cpu(tree, second, cpu) {
                found is Some && online_among(found->0, listed_cpus_of(tree, second), online)
            } else {
                found is None
            }
        }),
        cpu_record(tree, root, cpu, online).id == cpu,
{
    let topology = child(cpu_path(root, cpu), "topology"@);
    assert(cpu_record(tree, root, cpu, online).siblings == siblings(tree, topology, cpu, online).0
        && cpu_record(tree, root, cpu, online).id == cpu) by {
        reveal(cpu_record);
    }
    lemma_sibling_file(tree, topology, "core_cpus_list"@, cpu, online);
    lemma_sibling_file(tree, topology, "thread_siblings_list"@, cpu, online);
}

/// A file states a frequency: a positive number that fits.
pub open spec fn states_frequency(tree: FileTreeView, path: Seq<u8>, value: u64) -> bool {
    &&& tree.read(path) matches FileReadView::Contents(text)
    &&& value > 0
    &&& unsigned_value(trim(text)) == Some(value as nat)
}

proof fn lemma_frequency_file(
    tree: FileTreeView,
    cpufreq: Seq<u8>,
    filename: Seq<char>,
    cpu: u32,
)
    ensures
        match frequency_file(tree, cpufreq, filename, cpu).0 {
            Some(value) => states_frequency(tree, child(cpufreq, filename), value),
            None => forall|value: u64| !states_frequency(tree, child(cpufreq, filename), value),
        },
{
}

/// The maximum frequency of a CPU is the one that `cpuinfo_max_freq` states,
/// else the one that `scaling_max_freq` states, and unknown where neither
/// states one.
pub proof fn frequencies_are_those_stated(
    tree: FileTreeView,
    root: Seq<u8>,
    cpu: u32,
    online: Seq<u32>,
)
    ensures
        ({
            let cpufreq = child(cpu_path(root, cpu), "cpufreq"@);
            let first = child(cpufreq, "cpuinfo_max_freq"@);
            let second = child(cpufreq, "scaling_max_freq"@);
            match cpu_record(tree, root, cpu, online).max_frequency_khz {
                Some(value) => states_frequency(tree, first, value) || (states_frequency(
                    tree,
                    second,
                    value,
                ) && forall|other: u64| !states_frequency(tree, first, other)),
                None => forall|other: u64|
                    !states_frequency(tree, first, other) && !states_frequency(tree, second, other),
            }
        }),
{
    let cpufreq = child(cpu_path(root, cpu), "cpufreq"@);
    assert(cpu_record(tree, root, cpu, online).max_frequency_khz == max_frequency(
        tree,
        root,
        cpu,
    ).0) by {
        reveal(cpu_record);
    }
    lemma_frequency_file(tree, cpufreq, "cpuinfo_max_freq"@, cpu);
    lemma_frequency_file(tree, cpufreq, "scaling_max_freq"@, cpu);
}

/// A file states an identifier: a number that is not negative and fits.
pub open spec fn states_id(tree: FileTreeView, path: Seq<u8>, id: u32) -> bool {
    &&& tree.read(path) matches FileReadView::Contents(text)
    &&& signed_value(trim(text)) == Some(id as int)
}

/// The package and the core of a CPU are those that their files state, and
/// unknown where a file states none.
pub proof fn identifiers_are_those_stated(
    tree: FileTreeView,
    root: Seq<u8>,
    cpu: u32,
    online: Seq<u32>,
    id: u32,
)
    ensures
        cpu_record(tree, root, cpu, online).package_id == Some(id) <==> states_id(
            tree,
            topology_file(root, cpu, "physical_package_id"@),
            id,
        ),
        cpu_record(tree, root, cpu, online).core_id == Some(id) <==> states_id(
            tree,
            topology_file(root, cpu, "core_id"@),
            id,
        ),
{
    let package = topology_file(root, cpu, "physical_package_id"@);
    let core = topology_file(root, cpu, "core_id"@);
    assert(cpu_record(tree, root, cpu, online).package_id == topology_id(
        tree,
        package,
        cpu,
        "physical_package_id"@,
    ).0 && cpu_record(tree, root, cpu, online).core_id == topology_id(
        tree,
        core,
        cpu,
        "core_id"@,
    ).0) by {
        reveal(cpu_record);
    }
    lemma_topology_id(tree, package, cpu, "physical_package_id"@, id);
    lemma_topology_id(tree, core, cpu, "core_id"@, id);
}

proof fn lemma_topology_id(
    tree: FileTreeView,
    path: Seq<u8>,
    cpu: u32,
    name: Seq<char>,
    id: u32,
)
    ensures
        topology_id(tree, path, cpu, name).0 == Some(id) <==> states_id(tree, path, id),
{
}

/// The type of a CPU's core is the one that `core_type` states, and metadata is
/// there where that file can be read.
pub proof fn core_types_are_those_stated(
    tree: FileTreeView,
    root: Seq<u8>,
    cpu: u32,
    online: Seq<u32>,
)
    ensures
        ({
            let record = cpu_record(tree, root, cpu, online);
            match tree.read(topology_file(root, cpu, "core_type"@)) {
                FileReadView::Contents(text) => {
                    &&& record.core_type_metadata_present
                    &&& record.explicit_type == Some(CoreTypeInterpretation::Performance)
                        <==> core_type(text) == Ok::<CoreTypeInterpretation, CoreTypeErrorView>(
                        CoreTypeInterpretation::Performance,
                    )
                    &&& record.explicit_type == Some(CoreTypeInterpretation::Efficiency)
                        <==> core_type(text) == Ok::<CoreTypeInterpretation, CoreTypeErrorView>(
                        CoreTypeInterpretation::Efficiency,
                    )
                    &&& record.explicit_type matches Some(found) ==> !(found is Unsupported)
                },
                _ => !record.core_type_metadata_present && record.explicit_type is None,
            }
        }),
{
    let path = topology_file(root, cpu, "core_type"@);
    assert(cpu_record(tree, root, cpu, online).explicit_type == core_type_record(
        tree,
        path,
        cpu,
    ).0.1 && cpu_record(tree, root, cpu, online).core_type_metadata_present == core_type_record(
        tree,
        path,
        cpu,
    ).0.0) by {
        reveal(cpu_record);
    }
}

/// A `core_type` that is a decimal number stands for a performance core where
/// it is 64, for an efficiency core where it is 32, and for neither in every
/// other case.
pub proof fn core_types_are_sixty_four_and_thirty_two(text: Seq<char>, n: nat)
    requires
        trim(text) == text,
        text.len() > 0,
        unsigned_value(text) == Some(n),
        !(text.len() >= 2 && (text[1] == 'x' || text[1] == 'X')),
    ensures
        core_type(text) == Ok::<CoreTypeInterpretation, CoreTypeErrorView>(
            CoreTypeInterpretation::Performance,
        ) <==> n == 64,
        core_type(text) == Ok::<CoreTypeInterpretation, CoreTypeErrorView>(
            CoreTypeInterpretation::Efficiency,
        ) <==> n == 32,
{
    reveal_strlit("0x");
    reveal_strlit("0X");
    if text.len() >= 2 {
        assert(text.take(2)[1] == text[1]);
        assert("0x"@[1] == 'x');
        assert("0X"@[1] == 'X');
    }
}

/// The per-CPU flag counts as set: it is one, or there is none.
pub open spec fn flag_counts(tree: FileTreeView, root: Seq<u8>, cpu: u32) -> bool {
    match tree.read(child(cpu_path(root, cpu), "online"@)) {
        FileReadView::Contents(text) => trim(text) == "1"@,
        FileReadView::Missing => true,
        FileReadView::Failed(_) => false,
    }
}

/// The online CPUs are those of the global list, where there is one. Else they
/// are those of the present ones, or of those that have a directory, whose own
/// flag is set or missing.
pub proof fn online_cpus_are_those_listed_or_flagged(tree: FileTreeView, root: Seq<u8>)
    ensures
        match tree.read(child(root, "online"@)) {
            FileReadView::Contents(text) => match cpu_list(text) {
                Ok(listed) => online_cpus(tree, root) matches Ok(found) && found.0 == listed,
                Err(_) => online_cpus(tree, root) is Err,
            },
            FileReadView::Failed(_) => online_cpus(tree, root) is Err,
            FileReadView::Missing => match candidate_cpus(tree, root) {
                Err(_) => online_cpus(tree, root) is Err,
                Ok(candidates) => {
                    &&& online_cpus(tree, root) is Ok
                    &&& forall|cpu: u32| #[trigger]
                        online_cpus(tree, root)->Ok_0.0.contains(cpu) <==> candidates.contains(cpu)
                            && flag_counts(tree, root, cpu)
                },
            },
        },
        tree.read(child(root, "present"@)) matches FileReadView::Contents(text) ==> (cpu_list(
            text,
        ) matches Ok(present) ==> candidate_cpus(tree, root) == Ok::<
            Seq<u32>,
            DetectorErrorView,
        >(present)),
{
    reveal_strlit("1");
    reveal_strlit("0");
    if tree.read(child(root, "online"@)) is Missing && candidate_cpus(tree, root) is Ok {
        let candidates = candidate_cpus(tree, root)->Ok_0;
        let keep = counts_as_online(tree, root);
        assert forall|cpu: u32| #[trigger] online_cpus(tree, root)->Ok_0.0.contains(cpu)
            <==> candidates.contains(cpu) && flag_counts(tree, root, cpu) by {
            lemma_filter_holds(candidates, keep, cpu);
            assert(online_flag(tree, root, cpu).0 == flag_counts(tree, root, cpu)) by {
                assert("1"@[0] == '1' && "0"@[0] == '0');
            }
        }
    }
}

/// A snapshot has one record for each online CPU, which is that CPU's own.
pub proof fn snapshots_record_every_online_cpu(
    status: RootStatus,
    tree: FileTreeView,
    root: Seq<u8>,
)
    requires
        sysfs_snapshot(status, tree, root) is Ok,
    ensures
        status is Directory,
        ({
            let snapshot = sysfs_snapshot(status, tree, root)->Ok_0;
            &&& online_cpus(tree, root) is Ok
            &&& snapshot.online_cpus == online_cpus(tree, root)->Ok_0.0
            &&& snapshot.online_cpus.len() > 0
            &&& snapshot.records.len() == snapshot.online_cpus.len()
            &&& forall|i: int|
                0 <= i < snapshot.records.len() ==> #[trigger] snapshot.records[i] == cpu_record(
                    tree,
                    root,
                    snapshot.online_cpus[i],
                    snapshot.online_cpus,
                )
        }),
{
}

/// Two online CPUs belong together by themselves: the siblings of one name the
/// other, or neither has siblings and both are on one core of one package.
pub open spec fn linked(snapshot: SysfsSnapshotView, i: int, j: int) -> bool {
    let a = snapshot.records[i];
    let b = snapshot.records[j];
    ||| a.siblings matches Some(named) && named.contains(b.id)
    ||| b.siblings matches Some(named) && named.contains(a.id)
    ||| a.siblings is None && b.siblings is None && a.package_id is Some && a.package_id
        == b.package_id && a.core_id is Some && a.core_id == b.core_id
}

/// CPUs that belong together are on one physical core.
pub proof fn linked_cpus_share_a_core(snapshot: SysfsSnapshotView, i: int, j: int, k: int)
    requires
        snapshot.well_formed(),
        0 <= i < snapshot.records.len(),
        0 <= j < snapshot.records.len(),
        linked(snapshot, i, j),
        0 <= k < core_groups(snapshot).len(),
        core_groups(snapshot)[k].output.logical_cpus.contains(snapshot.records[i].id),
    ensures
        core_groups(snapshot)[k].output.logical_cpus.contains(snapshot.records[j].id),
{
    let a = snapshot.records[i].id;
    let b = snapshot.records[j].id;
    let online = snapshot.online_cpus;
    let first = online.filter(is_first(snapshot))[k];
    assert(online[i] == a && online[j] == b);
    assert(online.contains(a) && online.contains(b));
    assert(directly_joined(snapshot, a, b)) by {
        assert(snapshot.records[i].id == a && snapshot.records[j].id == b);
        if snapshot.records[i].siblings is Some && snapshot.records[i].siblings->0.contains(b) {
            assert(super::grouping::names_sibling(snapshot, a, b));
        } else if snapshot.records[j].siblings is Some && snapshot.records[j].siblings->0.contains(
            a,
        ) {
            assert(super::grouping::names_sibling(snapshot, b, a));
        } else {
            assert(super::grouping::equal_ids(snapshot.records[i], snapshot.records[j]));
            assert(super::grouping::same_ids(snapshot, a, b));
        }
    }
    let chain = seq![a, b];
    assert(is_chain(snapshot, chain));
    assert(super::grouping::chain_between(snapshot, chain, a, b));
    assert(same_core(snapshot, a, b));
    lemma_filter_holds(online, shares_core(snapshot, first), a);
    same_core_transitive(snapshot, first, a, b);
    lemma_filter_holds(online, shares_core(snapshot, first), b);
}

/// CPUs of which none belongs to one outside share no core with one outside.
pub proof fn unlinked_cpus_share_no_core(
    snapshot: SysfsSnapshotView,
    inside: spec_fn(u32) -> bool,
    k: int,
    a: u32,
    b: u32,
)
    requires
        snapshot.well_formed(),
        forall|i: int, j: int|
            0 <= i < snapshot.records.len() && 0 <= j < snapshot.records.len() && inside(
                (#[trigger] snapshot.records[i]).id,
            ) && !inside((#[trigger] snapshot.records[j]).id) ==> !linked(snapshot, i, j),
        0 <= k < core_groups(snapshot).len(),
        core_groups(snapshot)[k].output.logical_cpus.contains(a),
        core_groups(snapshot)[k].output.logical_cpus.contains(b),
        inside(a),
    ensures
        inside(b),
{
    let online = snapshot.online_cpus;
    let first = online.filter(is_first(snapshot))[k];
    lemma_filter_holds(online, shares_core(snapshot, first), a);
    lemma_filter_holds(online, shares_core(snapshot, first), b);
    same_core_symmetric(snapshot, first, a);
    same_core_transitive(snapshot, a, first, b);
    let chain = choose|chain: Seq<u32>|
        super::grouping::chain_between(snapshot, chain, a, b);
    lemma_chain_stays_inside(snapshot, inside, chain, chain.len() - 1);
}

proof fn lemma_chain_stays_inside(
    snapshot: SysfsSnapshotView,
    inside: spec_fn(u32) -> bool,
    chain: Seq<u32>,
    n: int,
)
    requires
        snapshot.well_formed(),
        forall|i: int, j: int|
            0 <= i < snapshot.records.len() && 0 <= j < snapshot.records.len() && inside(
                (#[trigger] snapshot.records[i]).id,
            ) && !inside((#[trigger] snapshot.records[j]).id) ==> !linked(snapshot, i, j),
        is_chain(snapshot, chain),
        0 <= n < chain.len(),
        inside(chain[0]),
    ensures
        inside(chain[n]),
    decreases n,
{
    if n > 0 {
        lemma_chain_stays_inside(snapshot, inside, chain, n - 1);
        let a = chain[n - 1];
        let b = chain[n];
        assert(directly_joined(snapshot, a, b));
        let online = snapshot.online_cpus;
        let i = choose|i: int| 0 <= i < online.len() && online[i] == a;
        let j = choose|j: int| 0 <= j < online.len() && online[j] == b;
        assert(snapshot.records[i].id == a && snapshot.records[j].id == b);
        lemma_joined_is_linked(snapshot, i, j);
    }
}

proof fn lemma_joined_is_linked(snapshot: SysfsSnapshotView, i: int, j: int)
    requires
        snapshot.well_formed(),
        0 <= i < snapshot.records.len(),
        0 <= j < snapshot.records.len(),
        directly_joined(snapshot, snapshot.records[i].id, snapshot.records[j].id),
    ensures
        linked(snapshot, i, j),
{
    let a = snapshot.records[i].id;
    let b = snapshot.records[j].id;
    assert forall|m: int, n: int|
        0 <= m < snapshot.records.len() && 0 <= n < snapshot.records.len() && (
        #[trigger] snapshot.records[m]).id == (#[trigger] snapshot.records[n]).id implies m
        == n by {
        let online = snapshot.online_cpus;
        assert(online[m] == online[n]);
        if m < n {
            assert(online[m] < online[n]);
        } else if n < m {
            assert(online[n] < online[m]);
        }
    }
}

/// Detection gives the topology of the snapshot under the policy, and fails
/// exactly where there is no snapshot.
pub proof fn detection_goes_by_the_snapshot(
    status: RootStatus,
    tree: FileTreeView,
    root: Seq<u8>,
    policy: DetectorPolicy,
)
    ensures
        match sysfs_snapshot(status, tree, root) {
            Ok(snapshot) => detection(status, tree, root, policy) == Ok::<
                CpuTopologyView,
                DetectorErrorView,
            >(topology(snapshot, policy)),
            Err(e) => detection(status, tree, root, policy) == Err::<
                CpuTopologyView,
                DetectorErrorView,
            >(e),
        },
{
}

} // verus!
