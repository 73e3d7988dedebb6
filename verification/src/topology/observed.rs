//! Which files and directories of the kernel's CPU directory detection looks
//! at, so that a caller can read them beforehand.
use vstd::prelude::*;

use super::parser::{cpu_list, parse_cpu_list};
use super::sysfs::{
    cache_fingerprint, cache_index, cache_indexes, candidate_cpus, core_type_record,
    counts_as_online, cpu_directory, cpu_path, cpu_record, find_candidates, flag_notes, index_names,
    list_index_names, max_frequency, names_before, online_cpus, online_flag, sibling_file, siblings,
    sysfs_snapshot, topology_id, RootStatus,
};
use crate::order::{lemma_filter_holds, lemma_sorted_holds, stable_sorted};
use crate::path::{
    child, joined, FileRead, FileReadView, FileTree, FileTreeView, Listing, ListingView, UnixPath,
};
use crate::text::{group_views, views};

verus! {

/// The lists of CPUs below the root.
pub open spec fn root_paths(root: Seq<u8>) -> Seq<Seq<u8>> {
    seq![child(root, "online"@), child(root, "present"@)]
}

/// The files that describe a CPU.
pub open spec fn cpu_paths(root: Seq<u8>, cpu: u32) -> Seq<Seq<u8>> {
    let directory = cpu_path(root, cpu);
    let topology = child(directory, "topology"@);
    let cpufreq = child(directory, "cpufreq"@);
    seq![
        child(directory, "online"@),
        child(topology, "physical_package_id"@),
        child(topology, "core_id"@),
        child(topology, "core_cpus_list"@),
        child(topology, "thread_siblings_list"@),
        child(topology, "core_type"@),
        child(cpufreq, "cpuinfo_max_freq"@),
        child(cpufreq, "scaling_max_freq"@),
    ]
}

/// The directory that describes the caches of a CPU.
pub open spec fn cache_path(root: Seq<u8>, cpu: u32) -> Seq<u8> {
    child(cpu_path(root, cpu), "cache"@)
}

/// The files that describe one cache.
pub open spec fn index_paths(index: Seq<u8>) -> Seq<Seq<u8>> {
    seq![
        child(index, "level"@),
        child(index, "type"@),
        child(index, "size"@),
        child(index, "shared_cpu_list"@),
    ]
}

/// The directories of the caches that a listing of their directory names.
pub open spec fn index_directories(cache: Seq<u8>, listing: ListingView) -> Seq<Seq<u8>> {
    match listing {
        ListingView::Entries(entries) => index_names(entries).map_values(
            |name: Seq<u8>| joined(cache, name),
        ),
        _ => Seq::empty(),
    }
}

/// The CPUs whose files are looked at: those of the global list, or those that
/// may be online where there is none.
pub open spec fn observed_cpus(tree: FileTreeView, root: Seq<u8>) -> Seq<u32> {
    match tree.read(child(root, "online"@)) {
        FileReadView::Contents(contents) => match cpu_list(contents) {
            Ok(cpus) => cpus,
            Err(_) => Seq::empty(),
        },
        FileReadView::Missing => match candidate_cpus(tree, root) {
            Ok(cpus) => cpus,
            Err(_) => Seq::empty(),
        },
        FileReadView::Failed(_) => Seq::empty(),
    }
}

/// The lists of CPUs below the root.
pub fn root_files(root: &UnixPath) -> (out: Vec<UnixPath>)
    ensures
        views(out@) == root_paths(root@),
{
    let out = vec![root.join("online"), root.join("present")];
    assert(views(out@) =~= root_paths(root@));
    out
}

/// The files that describe a CPU.
pub fn cpu_files(root: &UnixPath, cpu: u32) -> (out: Vec<UnixPath>)
    ensures
        views(out@) == cpu_paths(root@, cpu),
{
    let directory = cpu_directory(root, cpu);
    let topology = directory.join("topology");
    let cpufreq = directory.join("cpufreq");
    let out = vec![
        directory.join("online"),
        topology.join("physical_package_id"),
        topology.join("core_id"),
        topology.join("core_cpus_list"),
        topology.join("thread_siblings_list"),
        topology.join("core_type"),
        cpufreq.join("cpuinfo_max_freq"),
        cpufreq.join("scaling_max_freq"),
    ];
    assert(views(out@) =~= cpu_paths(root@, cpu));
    out
}

/// The directory that describes the caches of a CPU.
pub fn cache_directory(root: &UnixPath, cpu: u32) -> (out: UnixPath)
    ensures
        out@ == cache_path(root@, cpu),
{
    cpu_directory(root, cpu).join("cache")
}

/// The files that describe one cache.
pub fn index_files(index: &UnixPath) -> (out: Vec<UnixPath>)
    ensures
        views(out@) == index_paths(index@),
{
    let out = vec![
        index.join("level"),
        index.join("type"),
        index.join("size"),
        index.join("shared_cpu_list"),
    ];
    assert(views(out@) =~= index_paths(index@));
    out
}

/// The directories of the caches that a listing of their directory names.
pub fn list_indexes(cache: &UnixPath, listing: &Listing) -> (out: Vec<UnixPath>)
    ensures
        views(out@) == index_directories(cache@, listing@),
{
    broadcast use group_views;

    let mut out: Vec<UnixPath> = Vec::new();
    assert(views(out@) =~= Seq::empty());
    match listing {
        Listing::Entries(entries) => {
            let names = list_index_names(entries, 0, &mut Vec::new());
            let ghost all = index_directories(cache@, listing@);
            let mut i: usize = 0;
            assert(all.take(0) =~= Seq::empty());
            while i < names.len()
                invariant
                    i <= names@.len(),
                    all == views(names@).map_values(|name: Seq<u8>| joined(cache@, name)),
                    views(out@) == all.take(i as int),
                decreases names.len() - i,
            {
                assert(views(names@)[i as int] == names@[i as int]@);
                assert(all.take(i + 1) =~= all.take(i as int).push(all[i as int]));
                out.push(cache.join_path(&names[i]));
                i += 1;
            }
            assert(all.take(all.len() as int) =~= all);
        },
        _ => {},
    }
    out
}

/// The CPUs whose files have to be looked at, as far as the files and the
/// listing of the root tell.
pub fn find_observed_cpus(tree: &FileTree, root: &UnixPath) -> (out: Vec<u32>)
    ensures
        out@ == observed_cpus(tree@, root@),
{
    match tree.read(&root.join("online")) {
        FileRead::Contents(contents) => match parse_cpu_list(contents.as_str()) {
            Ok(cpus) => cpus,
            Err(_) => Vec::new(),
        },
        FileRead::Missing => match find_candidates(tree, root) {
            Ok(cpus) => cpus,
            Err(_) => Vec::new(),
        },
        FileRead::Failed(_) => Vec::new(),
    }
}

/// Two trees read alike at some paths.
pub open spec fn read_alike(a: FileTreeView, b: FileTreeView, paths: Seq<Seq<u8>>) -> bool {
    forall|i: int| 0 <= i < paths.len() ==> a.read(#[trigger] paths[i]) == b.read(paths[i])
}

/// Two trees agree on what is looked at for a CPU.
pub open spec fn cpu_alike(a: FileTreeView, b: FileTreeView, root: Seq<u8>, cpu: u32) -> bool {
    let cache = cache_path(root, cpu);
    let indexes = index_directories(cache, a.list(cache));
    &&& read_alike(a, b, cpu_paths(root, cpu))
    &&& a.list(cache) == b.list(cache)
    &&& forall|i: int|
        0 <= i < indexes.len() ==> read_alike(a, b, index_paths(#[trigger] indexes[i]))
}

/// Two trees agree on all that is looked at.
pub open spec fn trees_alike(a: FileTreeView, b: FileTreeView, root: Seq<u8>) -> bool {
    &&& read_alike(a, b, root_paths(root))
    &&& a.list(root) == b.list(root)
    &&& forall|cpu: u32| #[trigger]
        observed_cpus(a, root).contains(cpu) ==> cpu_alike(a, b, root, cpu)
}

proof fn lemma_index_alike(
    a: FileTreeView,
    b: FileTreeView,
    index: Seq<u8>,
    cpu: u32,
    online: Seq<u32>,
)
    requires
        read_alike(a, b, index_paths(index)),
    ensures
        cache_index(a, index, cpu, online) == cache_index(b, index, cpu, online),
{
    let paths = index_paths(index);
    assert(a.read(paths[0]) == b.read(paths[0]));
    assert(a.read(paths[1]) == b.read(paths[1]));
    assert(a.read(paths[2]) == b.read(paths[2]));
    assert(a.read(paths[3]) == b.read(paths[3]));
}

proof fn lemma_indexes_alike(
    a: FileTreeView,
    b: FileTreeView,
    cache: Seq<u8>,
    names: Seq<Seq<u8>>,
    cpu: u32,
    online: Seq<u32>,
)
    requires
        forall|i: int|
            0 <= i < names.len() ==> read_alike(a, b, index_paths(joined(cache, #[trigger] names[i]))),
    ensures
        cache_indexes(a, cache, names, cpu, online) == cache_indexes(b, cache, names, cpu, online),
    decreases names.len(),
{
    if names.len() > 0 {
        let front = names.drop_last();
        assert forall|i: int| 0 <= i < front.len() implies read_alike(
            a,
            b,
            index_paths(joined(cache, #[trigger] front[i])),
        ) by {
            assert(front[i] == names[i]);
        }
        lemma_indexes_alike(a, b, cache, front, cpu, online);
        assert(names.last() == names[names.len() - 1]);
        lemma_index_alike(a, b, joined(cache, names.last()), cpu, online);
    }
}

proof fn lemma_cache_alike(
    a: FileTreeView,
    b: FileTreeView,
    root: Seq<u8>,
    cpu: u32,
    online: Seq<u32>,
)
    requires
        cpu_alike(a, b, root, cpu),
    ensures
        cache_fingerprint(a, root, cpu, online) == cache_fingerprint(b, root, cpu, online),
{
    let cache = cache_path(root, cpu);
    match a.list(cache) {
        ListingView::Entries(entries) => {
            let plain = index_names(entries);
            let names = stable_sorted(plain, names_before());
            let indexes = index_directories(cache, a.list(cache));
            assert forall|i: int| 0 <= i < names.len() implies read_alike(
                a,
                b,
                index_paths(joined(cache, #[trigger] names[i])),
            ) by {
                assert(names.contains(names[i]));
                lemma_sorted_holds(plain, names_before(), names[i]);
                let k = choose|k: int| 0 <= k < plain.len() && plain[k] == names[i];
                assert(indexes[k] == joined(cache, names[i]));
            }
            lemma_indexes_alike(a, b, cache, names, cpu, online);
        },
        _ => {},
    }
}

proof fn lemma_id_alike(
    a: FileTreeView,
    b: FileTreeView,
    path: Seq<u8>,
    cpu: u32,
    name: Seq<char>,
)
    requires
        a.read(path) == b.read(path),
    ensures
        topology_id(a, path, cpu, name) == topology_id(b, path, cpu, name),
        core_type_record(a, path, cpu) == core_type_record(b, path, cpu),
{
}

proof fn lemma_siblings_alike(
    a: FileTreeView,
    b: FileTreeView,
    topology: Seq<u8>,
    cpu: u32,
    online: Seq<u32>,
)
    requires
        a.read(child(topology, "core_cpus_list"@)) == b.read(child(topology, "core_cpus_list"@)),
        a.read(child(topology, "thread_siblings_list"@)) == b.read(
            child(topology, "thread_siblings_list"@),
        ),
    ensures
        siblings(a, topology, cpu, online) == siblings(b, topology, cpu, online),
{
    assert(sibling_file(a, topology, "core_cpus_list"@, cpu, online) == sibling_file(
        b,
        topology,
        "core_cpus_list"@,
        cpu,
        online,
    ));
    assert(sibling_file(a, topology, "thread_siblings_list"@, cpu, online) == sibling_file(
        b,
        topology,
        "thread_siblings_list"@,
        cpu,
        online,
    ));
}

proof fn lemma_frequency_alike(a: FileTreeView, b: FileTreeView, root: Seq<u8>, cpu: u32)
    requires
        read_alike(a, b, cpu_paths(root, cpu)),
    ensures
        max_frequency(a, root, cpu) == max_frequency(b, root, cpu),
        online_flag(a, root, cpu) == online_flag(b, root, cpu),
{
    let paths = cpu_paths(root, cpu);
    assert(a.read(paths[0]) == b.read(paths[0]));
    assert(a.read(paths[6]) == b.read(paths[6]));
    assert(a.read(paths[7]) == b.read(paths[7]));
}

proof fn lemma_topology_alike(
    a: FileTreeView,
    b: FileTreeView,
    root: Seq<u8>,
    cpu: u32,
    online: Seq<u32>,
)
    requires
        read_alike(a, b, cpu_paths(root, cpu)),
    ensures
        ({
            let topology = child(cpu_path(root, cpu), "topology"@);
            let package = child(topology, "physical_package_id"@);
            let core = child(topology, "core_id"@);
            let kind = child(topology, "core_type"@);
            &&& topology_id(a, package, cpu, "physical_package_id"@) == topology_id(
                b,
                package,
                cpu,
                "physical_package_id"@,
            )
            &&& topology_id(a, core, cpu, "core_id"@) == topology_id(b, core, cpu, "core_id"@)
            &&& siblings(a, topology, cpu, online) == siblings(b, topology, cpu, online)
            &&& core_type_record(a, kind, cpu) == core_type_record(b, kind, cpu)
        }),
{
    let paths = cpu_paths(root, cpu);
    let topology = child(cpu_path(root, cpu), "topology"@);
    assert(a.read(paths[1]) == b.read(paths[1]));
    assert(a.read(paths[2]) == b.read(paths[2]));
    assert(a.read(paths[3]) == b.read(paths[3]));
    assert(a.read(paths[4]) == b.read(paths[4]));
    assert(a.read(paths[5]) == b.read(paths[5]));
    lemma_id_alike(a, b, paths[1], cpu, "physical_package_id"@);
    lemma_id_alike(a, b, paths[2], cpu, "core_id"@);
    lemma_id_alike(a, b, paths[5], cpu, "core_type"@);
    lemma_siblings_alike(a, b, topology, cpu, online);
}

#[verifier::spinoff_prover]
#[verifier::rlimit(40)]
proof fn lemma_record_alike(
    a: FileTreeView,
    b: FileTreeView,
    root: Seq<u8>,
    cpu: u32,
    online: Seq<u32>,
)
    requires
        cpu_alike(a, b, root, cpu),
    ensures
        cpu_record(a, root, cpu, online) == cpu_record(b, root, cpu, online),
        online_flag(a, root, cpu) == online_flag(b, root, cpu),
{
    lemma_topology_alike(a, b, root, cpu, online);
    lemma_frequency_alike(a, b, root, cpu);
    lemma_cache_alike(a, b, root, cpu, online);
    reveal(cpu_record);
}

proof fn lemma_flags_alike(a: FileTreeView, b: FileTreeView, root: Seq<u8>, cpus: Seq<u32>)
    requires
        forall|cpu: u32| #[trigger]
            cpus.contains(cpu) ==> online_flag(a, root, cpu) == online_flag(b, root, cpu),
    ensures
        flag_notes(a, root, cpus) == flag_notes(b, root, cpus),
        cpus.filter(counts_as_online(a, root)) == cpus.filter(counts_as_online(b, root)),
    decreases cpus.len(),
{
    reveal(Seq::filter);
    if cpus.len() > 0 {
        let front = cpus.drop_last();
        assert forall|cpu: u32| #[trigger] front.contains(cpu) implies online_flag(a, root, cpu)
            == online_flag(b, root, cpu) by {
            let k = choose|k: int| 0 <= k < front.len() && front[k] == cpu;
            assert(cpus[k] == cpu);
            assert(cpus.contains(cpu));
        }
        lemma_flags_alike(a, b, root, front);
        assert(cpus[cpus.len() - 1] == cpus.last());
        assert(cpus.contains(cpus.last()));
    }
}

/// The snapshot of a CPU directory depends on nothing but the files and
/// listings that are named here: where two trees agree on these, it is the
/// same.
pub proof fn snapshots_depend_on_what_is_named(
    status: RootStatus,
    a: FileTreeView,
    b: FileTreeView,
    root: Seq<u8>,
)
    requires
        trees_alike(a, b, root),
    ensures
        sysfs_snapshot(status, a, root) == sysfs_snapshot(status, b, root),
{
    let paths = root_paths(root);
    assert(a.read(paths[0]) == b.read(paths[0]));
    assert(a.read(paths[1]) == b.read(paths[1]));
    assert(candidate_cpus(a, root) == candidate_cpus(b, root));
    let observed = observed_cpus(a, root);
    assert forall|cpu: u32| #[trigger] observed.contains(cpu) implies online_flag(a, root, cpu)
        == online_flag(b, root, cpu) by {
        lemma_record_alike(a, b, root, cpu, Seq::empty());
    }
    lemma_flags_alike(a, b, root, observed);
    assert(online_cpus(a, root) == online_cpus(b, root));
    if online_cpus(a, root) is Ok {
        let online = online_cpus(a, root)->Ok_0.0;
        let one = online.map_values(|cpu: u32| cpu_record(a, root, cpu, online));
        let other = online.map_values(|cpu: u32| cpu_record(b, root, cpu, online));
        assert forall|i: int| 0 <= i < online.len() implies one[i] == other[i] by {
            assert(online.contains(online[i]));
            if a.read(paths[0]) is Missing {
                lemma_filter_holds(observed, counts_as_online(a, root), online[i]);
            }
            assert(observed.contains(online[i]));
            lemma_record_alike(a, b, root, online[i], online);
        }
        assert(one =~= other);
    }
}

} // verus!
