//! What detection notes of what it left out, and what its records rest on.
use vstd::prelude::*;

use super::detector::{record_notes, topology, DetectorPolicy};
use super::evidence::{EvidenceKind, EvidenceSource, EvidenceView};
use super::meaning::{lists_cpu, topology_file};
use super::parser::{core_type, cpu_list};
use super::sysfs::{
    cache_fingerprint, cache_index, cache_indexes, core_type_record, cpu_path, cpu_record,
    directory_cpu, directory_cpus, frequency_file, index_names, listed_cpus, max_frequency,
    member_is, names_before, online_cpus, sibling_file, siblings, topology_id, SysfsSnapshotView,
};
use crate::order::{
    lemma_filter_holds, lemma_sorted_holds, lemma_sorted_set, lemma_sorted_set_of_ascending,
    sorted_set, stable_sorted,
};
use crate::path::{
    child, joined, path_text, FileReadView, FileTreeView, ListingEntryView, ListingView,
};
use crate::text::{all_digits, digits_value, signed_value, starts_with, trim, unsigned_value};

verus! {

/// Something of the kind was noted of some CPUs.
pub open spec fn is_noted(
    notes: Seq<EvidenceView>,
    source: EvidenceSource,
    kind: EvidenceKind,
    cpus: Seq<u32>,
) -> bool {
    exists|k: int| noted_at(notes, k, source, kind, cpus)
}

pub open spec fn noted_at(
    notes: Seq<EvidenceView>,
    k: int,
    source: EvidenceSource,
    kind: EvidenceKind,
    cpus: Seq<u32>,
) -> bool {
    &&& 0 <= k < notes.len()
    &&& notes[k].source == source
    &&& notes[k].kind == kind
    &&& notes[k].affected_cpus == cpus
}

proof fn lemma_noted_in(
    before: Seq<EvidenceView>,
    notes: Seq<EvidenceView>,
    behind: Seq<EvidenceView>,
    source: EvidenceSource,
    kind: EvidenceKind,
    cpus: Seq<u32>,
)
    requires
        is_noted(notes, source, kind, cpus),
    ensures
        is_noted(before + notes + behind, source, kind, cpus),
{
    let k = choose|k: int| noted_at(notes, k, source, kind, cpus);
    assert((before + notes + behind)[before.len() + k] == notes[k]);
    assert(noted_at(before + notes + behind, before.len() + k, source, kind, cpus));
}

/// Everything that was noted while the files were read is in the evidence of
/// the topology.
pub proof fn every_note_is_evidence(
    snapshot: SysfsSnapshotView,
    policy: DetectorPolicy,
    i: int,
    note: EvidenceView,
)
    ensures
        snapshot.evidence.contains(note) ==> topology(snapshot, policy).evidence.contains(note),
        0 <= i < snapshot.records.len() && snapshot.records[i].evidence.contains(note) ==> topology(
            snapshot,
            policy,
        ).evidence.contains(note),
{
    let all = topology(snapshot, policy).evidence;
    let first = snapshot.evidence;
    let second = record_notes(snapshot.records);
    if first.contains(note) {
        let k = choose|k: int| 0 <= k < first.len() && first[k] == note;
        assert(all[k] == note);
    }
    if 0 <= i < snapshot.records.len() && snapshot.records[i].evidence.contains(note) {
        lemma_record_notes(snapshot.records, i, note);
        let k = choose|k: int| 0 <= k < second.len() && second[k] == note;
        assert(all[first.len() + k] == note);
    }
}

proof fn lemma_record_notes(
    records: Seq<super::sysfs::CpuRecordView>,
    i: int,
    note: EvidenceView,
)
    requires
        0 <= i < records.len(),
        records[i].evidence.contains(note),
    ensures
        record_notes(records).contains(note),
    decreases records.len(),
{
    let front = records.drop_last();
    let all = record_notes(records);
    if i < front.len() {
        lemma_record_notes(front, i, note);
        let k = choose|k: int|
            0 <= k < record_notes(front).len() && record_notes(front)[k] == note;
        assert(all[k] == note);
    } else {
        let last = records.last().evidence;
        let k = choose|k: int| 0 <= k < last.len() && last[k] == note;
        assert(all[record_notes(front).len() + k] == note);
    }
}

/// The contents of a file, where it could be read.
pub open spec fn holds_text(tree: FileTreeView, path: Seq<u8>) -> bool {
    tree.read(path) is Contents
}

pub open spec fn text_of(tree: FileTreeView, path: Seq<u8>) -> Seq<char> {
    tree.read(path)->Contents_0
}

/// A list of siblings that is malformed, or that leaves its own CPU out, is
/// noted; and so are, of a list that is used, exactly the CPUs that are not
/// online.
pub proof fn ignored_siblings_are_noted(
    tree: FileTreeView,
    root: Seq<u8>,
    cpu: u32,
    online: Seq<u32>,
    offline: u32,
)
    ensures
        ({
            let path = topology_file(root, cpu, "core_cpus_list"@);
            let notes = cpu_record(tree, root, cpu, online).evidence;
            let listed = cpu_list(text_of(tree, path));
            &&& holds_text(tree, path) && listed is Err ==> is_noted(
                notes,
                EvidenceSource::ThreadSiblings,
                EvidenceKind::Warning,
                seq![cpu],
            )
            &&& holds_text(tree, path) && listed is Ok && !listed->Ok_0.contains(cpu) ==> is_noted(
                notes,
                EvidenceSource::ThreadSiblings,
                EvidenceKind::Contradiction,
                seq![cpu],
            )
            &&& lists_cpu(tree, path, cpu) && listed->Ok_0.contains(offline) && !online.contains(
                offline,
            ) ==> exists|k: int| #[trigger]
                noted_at(
                    notes,
                    k,
                    EvidenceSource::ThreadSiblings,
                    EvidenceKind::Observation,
                    notes[k].affected_cpus,
                ) && notes[k].affected_cpus.contains(offline)
        }),
{
    let topology = child(cpu_path(root, cpu), "topology"@);
    let path = child(topology, "core_cpus_list"@);
    let record = cpu_record(tree, root, cpu, online);
    lemma_sorted_set_of_ascending(seq![cpu]);
    let package_id = topology_id(
        tree,
        child(topology, "physical_package_id"@),
        cpu,
        "physical_package_id"@,
    );
    let core_id = topology_id(tree, child(topology, "core_id"@), cpu, "core_id"@);
    let found = siblings(tree, topology, cpu, online);
    let explicit = core_type_record(tree, child(topology, "core_type"@), cpu);
    let frequency = max_frequency(tree, root, cpu);
    let cache = cache_fingerprint(tree, root, cpu, online);
    let before = package_id.1 + core_id.1;
    let behind = explicit.1 + frequency.1 + cache.1;
    assert(record.evidence =~= before + found.1 + behind) by {
        reveal(cpu_record);
    }
    let first = sibling_file(tree, topology, "core_cpus_list"@, cpu, online);
    if holds_text(tree, path) {
        let listed = cpu_list(text_of(tree, path));
        if listed is Err || !listed->Ok_0.contains(cpu) {
            let kind = if listed is Err {
                EvidenceKind::Warning
            } else {
                EvidenceKind::Contradiction
            };
            assert(noted_at(first.1, 0, EvidenceSource::ThreadSiblings, kind, seq![cpu]));
            let none = Seq::<EvidenceView>::empty();
            lemma_noted_in(
                none,
                first.1,
                sibling_file(tree, topology, "thread_siblings_list"@, cpu, online).1,
                EvidenceSource::ThreadSiblings,
                kind,
                seq![cpu],
            );
            assert(none + first.1 =~= first.1);
            lemma_noted_in(
                before,
                found.1,
                behind,
                EvidenceSource::ThreadSiblings,
                kind,
                seq![cpu],
            );
        } else if listed->Ok_0.contains(offline) && !online.contains(offline) {
            let missing = listed->Ok_0.filter(member_is(online, false));
            lemma_filter_holds(listed->Ok_0, member_is(online, false), offline);
            lemma_sorted_set(missing);
            assert(missing.len() > 0);
            let k = before.len() as int;
            assert(found.1.len() == 1 && found.1[0].affected_cpus == sorted_set(missing));
            assert(record.evidence[k] == found.1[0]);
            assert(noted_at(
                record.evidence,
                k,
                EvidenceSource::ThreadSiblings,
                EvidenceKind::Observation,
                record.evidence[k].affected_cpus,
            ));
        }
    }
}

/// A file states something, but no positive number that fits.
pub open spec fn bad_frequency(tree: FileTreeView, path: Seq<u8>) -> bool {
    &&& holds_text(tree, path)
    &&& {
        let value = unsigned_value(trim(text_of(tree, path)));
        value is None || value->0 == 0 || value->0 > u64::MAX
    }
}

/// A file states an identifier that is none: neither a number that fits nor
/// the mark for an unknown one.
pub open spec fn bad_id(tree: FileTreeView, path: Seq<u8>) -> bool {
    &&& holds_text(tree, path)
    &&& {
        let value = signed_value(trim(text_of(tree, path)));
        value is None || value->0 < -1 || value->0 > u32::MAX
    }
}

proof fn lemma_noted_among(
    parts: Seq<Seq<EvidenceView>>,
    i: int,
    source: EvidenceSource,
    kind: EvidenceKind,
    cpus: Seq<u32>,
)
    requires
        parts.len() == 6,
        0 <= i < 6,
        is_noted(parts[i], source, kind, cpus),
    ensures
        is_noted(
            parts[0] + parts[1] + parts[2] + parts[3] + parts[4] + parts[5],
            source,
            kind,
            cpus,
        ),
{
    let all = parts[0] + parts[1] + parts[2] + parts[3] + parts[4] + parts[5];
    let k = choose|k: int| noted_at(parts[i], k, source, kind, cpus);
    let before: nat = if i == 0 {
        0
    } else if i == 1 {
        parts[0].len()
    } else if i == 2 {
        parts[0].len() + parts[1].len()
    } else if i == 3 {
        parts[0].len() + parts[1].len() + parts[2].len()
    } else if i == 4 {
        parts[0].len() + parts[1].len() + parts[2].len() + parts[3].len()
    } else {
        parts[0].len() + parts[1].len() + parts[2].len() + parts[3].len() + parts[4].len()
    };
    assert(all[before + k] == parts[i][k]);
    assert(noted_at(all, before + k, source, kind, cpus));
}

/// The notes of the files that a record is read from, file by file.
pub open spec fn note_parts(
    tree: FileTreeView,
    root: Seq<u8>,
    cpu: u32,
    online: Seq<u32>,
) -> Seq<Seq<EvidenceView>> {
    let topology = child(cpu_path(root, cpu), "topology"@);
    seq![
        topology_id(
            tree,
            child(topology, "physical_package_id"@),
            cpu,
            "physical_package_id"@,
        ).1,
        topology_id(tree, child(topology, "core_id"@), cpu, "core_id"@).1,
        siblings(tree, topology, cpu, online).1,
        core_type_record(tree, child(topology, "core_type"@), cpu).1,
        max_frequency(tree, root, cpu).1,
        cache_fingerprint(tree, root, cpu, online).1,
    ]
}

proof fn lemma_note_parts(tree: FileTreeView, root: Seq<u8>, cpu: u32, online: Seq<u32>)
    ensures
        ({
            let parts = note_parts(tree, root, cpu, online);
            cpu_record(tree, root, cpu, online).evidence == parts[0] + parts[1] + parts[2]
                + parts[3] + parts[4] + parts[5]
        }),
{
    reveal(cpu_record);
}

/// A frequency that is ignored is noted.
pub proof fn ignored_frequencies_are_noted(
    tree: FileTreeView,
    root: Seq<u8>,
    cpu: u32,
    online: Seq<u32>,
)
    requires
        bad_frequency(tree, child(child(cpu_path(root, cpu), "cpufreq"@), "cpuinfo_max_freq"@)),
    ensures
        is_noted(
            cpu_record(tree, root, cpu, online).evidence,
            EvidenceSource::MaximumFrequency,
            EvidenceKind::Warning,
            seq![cpu],
        ),
{
    let cpufreq = child(cpu_path(root, cpu), "cpufreq"@);
    let first = frequency_file(tree, cpufreq, "cpuinfo_max_freq"@, cpu);
    let second = frequency_file(tree, cpufreq, "scaling_max_freq"@, cpu);
    let source = EvidenceSource::MaximumFrequency;
    let none = Seq::<EvidenceView>::empty();
    lemma_sorted_set_of_ascending(seq![cpu]);
    assert(noted_at(first.1, 0, source, EvidenceKind::Warning, seq![cpu]));
    lemma_noted_in(none, first.1, second.1, source, EvidenceKind::Warning, seq![cpu]);
    assert(none + first.1 =~= first.1);
    lemma_note_parts(tree, root, cpu, online);
    lemma_noted_among(
        note_parts(tree, root, cpu, online),
        4,
        source,
        EvidenceKind::Warning,
        seq![cpu],
    );
}

/// A core type that is ignored is noted.
pub proof fn ignored_core_types_are_noted(
    tree: FileTreeView,
    root: Seq<u8>,
    cpu: u32,
    online: Seq<u32>,
)
    requires
        cpu_record(tree, root, cpu, online).core_type_metadata_present,
        cpu_record(tree, root, cpu, online).explicit_type is None,
    ensures
        is_noted(
            cpu_record(tree, root, cpu, online).evidence,
            EvidenceSource::CoreType,
            EvidenceKind::Warning,
            seq![cpu],
        ),
{
    let path = topology_file(root, cpu, "core_type"@);
    let explicit = core_type_record(tree, path, cpu);
    assert(explicit.0.0 && explicit.0.1 is None) by {
        reveal(cpu_record);
    }
    lemma_sorted_set_of_ascending(seq![cpu]);
    assert(noted_at(
        explicit.1,
        0,
        EvidenceSource::CoreType,
        EvidenceKind::Warning,
        seq![cpu],
    ));
    lemma_note_parts(tree, root, cpu, online);
    lemma_noted_among(
        note_parts(tree, root, cpu, online),
        3,
        EvidenceSource::CoreType,
        EvidenceKind::Warning,
        seq![cpu],
    );
}

/// An identifier that is ignored is noted.
pub proof fn ignored_identifiers_are_noted(
    tree: FileTreeView,
    root: Seq<u8>,
    cpu: u32,
    online: Seq<u32>,
)
    requires
        bad_id(tree, topology_file(root, cpu, "physical_package_id"@)) || bad_id(
            tree,
            topology_file(root, cpu, "core_id"@),
        ),
    ensures
        is_noted(
            cpu_record(tree, root, cpu, online).evidence,
            EvidenceSource::TopologyIds,
            EvidenceKind::Warning,
            seq![cpu],
        ),
{
    let package = topology_file(root, cpu, "physical_package_id"@);
    let parts = note_parts(tree, root, cpu, online);
    let i: int = if bad_id(tree, package) {
        0
    } else {
        1
    };
    lemma_sorted_set_of_ascending(seq![cpu]);
    assert(noted_at(parts[i], 0, EvidenceSource::TopologyIds, EvidenceKind::Warning, seq![cpu]));
    lemma_note_parts(tree, root, cpu, online);
    lemma_noted_among(parts, i, EvidenceSource::TopologyIds, EvidenceKind::Warning, seq![cpu]);
}

/// An entry of a directory is that of a CPU: `cpu` and its number.
pub open spec fn names_cpu(entry: ListingEntryView, cpu: u32) -> bool {
    match entry {
        ListingEntryView::Name(name) => match path_text(name) {
            Some(text) => starts_with(text, "cpu"@) && all_digits(text.skip(3)) && digits_value(
                text.skip(3),
            ) == cpu,
            None => false,
        },
        ListingEntryView::Failed(_) => false,
    }
}

proof fn lemma_directory_cpus(entries: Seq<ListingEntryView>, cpu: u32)
    ensures
        directory_cpus(entries) matches Ok(found) ==> (found.contains(cpu) <==> exists|i: int|
            0 <= i < entries.len() && names_cpu(#[trigger] entries[i], cpu)),
    decreases entries.len(),
{
    if entries.len() > 0 && directory_cpus(entries) is Ok {
        let front = entries.drop_last();
        let last = entries.last();
        lemma_directory_cpus(front, cpu);
        let earlier = directory_cpus(front)->Ok_0;
        let found = directory_cpus(entries)->Ok_0;
        assert(entries[entries.len() - 1] == last);
        assert(names_cpu(last, cpu) <==> directory_cpu(last->Name_0) == Some(cpu));
        if earlier.contains(cpu) {
            let j = choose|j: int| 0 <= j < earlier.len() && earlier[j] == cpu;
            assert(found[j] == cpu);
            let i = choose|i: int| 0 <= i < front.len() && names_cpu(#[trigger] front[i], cpu);
            assert(names_cpu(entries[i], cpu));
        }
        if names_cpu(last, cpu) {
            assert(found[found.len() - 1] == cpu);
        }
        if found.contains(cpu) {
            let j = choose|j: int| 0 <= j < found.len() && found[j] == cpu;
            if j < earlier.len() {
                assert(earlier[j] == cpu);
            }
        }
        if exists|i: int| 0 <= i < entries.len() && names_cpu(#[trigger] entries[i], cpu) {
            let i = choose|i: int| 0 <= i < entries.len() && names_cpu(#[trigger] entries[i], cpu);
            if i < front.len() {
                assert(names_cpu(front[i], cpu));
            }
        }
    }
}

/// The CPUs that have a directory are exactly those that the listing names.
pub proof fn directories_name_their_cpus(tree: FileTreeView, root: Seq<u8>, cpu: u32)
    ensures
        listed_cpus(tree, root) matches Ok(found) ==> (found.contains(cpu) <==> (tree.list(
            root,
        ) matches ListingView::Entries(entries) && exists|i: int|
            0 <= i < entries.len() && names_cpu(#[trigger] entries[i], cpu))),
{
    if listed_cpus(tree, root) is Ok {
        let entries = tree.list(root)->Entries_0;
        lemma_directory_cpus(entries, cpu);
        lemma_sorted_set(directory_cpus(entries)->Ok_0);
    }
}

/// A list of online CPUs that goes beyond the present ones stands, and exactly
/// the CPUs beyond are noted.
pub proof fn absent_online_cpus_are_noted(tree: FileTreeView, root: Seq<u8>, cpu: u32)
    requires
        tree.read(child(root, "online"@)) matches FileReadView::Contents(text) && cpu_list(
            text,
        ) is Ok,
        tree.read(child(root, "present"@)) matches FileReadView::Contents(text) && cpu_list(
            text,
        ) is Ok,
    ensures
        ({
            let online = cpu_list(text_of(tree, child(root, "online"@)))->Ok_0;
            let present = cpu_list(text_of(tree, child(root, "present"@)))->Ok_0;
            let notes = online_cpus(tree, root)->Ok_0.1;
            &&& notes[0].affected_cpus.contains(cpu) <==> online.contains(cpu)
            &&& notes[0].kind == EvidenceKind::Observation
            &&& online.contains(cpu) && !present.contains(cpu) ==> notes.len() == 2 && notes[1].kind
                == EvidenceKind::Contradiction
            &&& notes.len() == 2 ==> (notes[1].affected_cpus.contains(cpu) <==> online.contains(cpu)
                && !present.contains(cpu))
        }),
{
    let online = cpu_list(text_of(tree, child(root, "online"@)))->Ok_0;
    let present = cpu_list(text_of(tree, child(root, "present"@)))->Ok_0;
    let outside = online.filter(member_is(present, false));
    lemma_filter_holds(online, member_is(present, false), cpu);
    lemma_sorted_set(online);
    lemma_sorted_set(outside);
    if online.contains(cpu) && !present.contains(cpu) {
        assert(outside.contains(cpu));
        assert(outside.len() > 0);
    }
}

/// An index directory of a cache has all that a layout is made of.
pub open spec fn complete_index(tree: FileTreeView, index: Seq<u8>) -> bool {
    &&& holds_text(tree, child(index, "level"@))
    &&& holds_text(tree, child(index, "type"@))
    &&& holds_text(tree, child(index, "size"@))
    &&& holds_text(tree, child(index, "shared_cpu_list"@))
    &&& cpu_list(text_of(tree, child(index, "shared_cpu_list"@))) is Ok
}

/// An entry of a cache directory is an index directory.
pub open spec fn is_index(entry: ListingEntryView, name: Seq<u8>) -> bool {
    &&& entry == ListingEntryView::Name(name)
    &&& path_text(name) is Some
    &&& starts_with(path_text(name)->0, "index"@)
}

proof fn lemma_index_names(entries: Seq<ListingEntryView>, name: Seq<u8>)
    ensures
        index_names(entries).contains(name) <==> exists|i: int|
            0 <= i < entries.len() && is_index(#[trigger] entries[i], name),
    decreases entries.len(),
{
    if entries.len() > 0 {
        let front = entries.drop_last();
        let earlier = index_names(front);
        let now = index_names(entries);
        lemma_index_names(front, name);
        assert(entries[entries.len() - 1] == entries.last());
        if earlier.contains(name) {
            let j = choose|j: int| 0 <= j < earlier.len() && earlier[j] == name;
            assert(now[j] == name);
            let i = choose|i: int| 0 <= i < front.len() && is_index(#[trigger] front[i], name);
            assert(is_index(entries[i], name));
        }
        if is_index(entries.last(), name) {
            assert(now[now.len() - 1] == name);
        }
        if now.contains(name) {
            let j = choose|j: int| 0 <= j < now.len() && now[j] == name;
            if j < earlier.len() {
                assert(earlier[j] == name);
            }
        }
        if exists|i: int| 0 <= i < entries.len() && is_index(#[trigger] entries[i], name) {
            let i = choose|i: int| 0 <= i < entries.len() && is_index(#[trigger] entries[i], name);
            if i < front.len() {
                assert(is_index(front[i], name));
            }
        }
    }
}

proof fn lemma_cache_indexes(
    tree: FileTreeView,
    cache: Seq<u8>,
    names: Seq<Seq<u8>>,
    cpu: u32,
    online: Seq<u32>,
)
    ensures
        cache_indexes(tree, cache, names, cpu, online).0.len() > 0 <==> exists|k: int|
            0 <= k < names.len() && complete_index(tree, joined(cache, #[trigger] names[k])),
    decreases names.len(),
{
    if names.len() > 0 {
        let front = names.drop_last();
        lemma_cache_indexes(tree, cache, front, cpu, online);
        assert(names[names.len() - 1] == names.last());
        assert(cache_index(tree, joined(cache, names.last()), cpu, online).0 is Some
            <==> complete_index(tree, joined(cache, names.last())));
        if exists|k: int|
            0 <= k < front.len() && complete_index(tree, joined(cache, #[trigger] front[k])) {
            let k = choose|k: int|
                0 <= k < front.len() && complete_index(tree, joined(cache, #[trigger] front[k]));
            assert(complete_index(tree, joined(cache, names[k])));
        }
        if exists|k: int|
            0 <= k < names.len() && complete_index(tree, joined(cache, #[trigger] names[k])) {
            let k = choose|k: int|
                0 <= k < names.len() && complete_index(tree, joined(cache, #[trigger] names[k]));
            if k < front.len() {
                assert(complete_index(tree, joined(cache, front[k])));
            }
        }
    }
}

pub open spec fn offers_layout(
    tree: FileTreeView,
    cache: Seq<u8>,
    entries: Seq<ListingEntryView>,
    i: int,
    name: Seq<u8>,
) -> bool {
    0 <= i < entries.len() && is_index(entries[i], name) && complete_index(
        tree,
        joined(cache, name),
    )
}

/// The cache layout of a CPU is known exactly where one of its index
/// directories has all that a layout is made of.
pub proof fn layouts_need_a_complete_index(
    tree: FileTreeView,
    root: Seq<u8>,
    cpu: u32,
    online: Seq<u32>,
)
    ensures
        ({
            let cache = child(cpu_path(root, cpu), "cache"@);
            cpu_record(tree, root, cpu, online).cache_fingerprint is Some <==> (tree.list(
                cache,
            ) matches ListingView::Entries(entries) && exists|i: int, name: Seq<u8>|
                offers_layout(tree, cache, entries, i, name))
        }),
{
    let cache = child(cpu_path(root, cpu), "cache"@);
    assert(cpu_record(tree, root, cpu, online).cache_fingerprint == cache_fingerprint(
        tree,
        root,
        cpu,
        online,
    ).0) by {
        reveal(cpu_record);
    }
    if tree.list(cache) is Entries {
        let entries = tree.list(cache)->Entries_0;
        let plain = index_names(entries);
        let names = stable_sorted(plain, names_before());
        lemma_cache_indexes(tree, cache, names, cpu, online);
        if exists|k: int|
            0 <= k < names.len() && complete_index(tree, joined(cache, #[trigger] names[k])) {
            let k = choose|k: int|
                0 <= k < names.len() && complete_index(tree, joined(cache, #[trigger] names[k]));
            assert(names.contains(names[k]));
            lemma_sorted_holds(plain, names_before(), names[k]);
            lemma_index_names(entries, names[k]);
            let i = choose|i: int|
                0 <= i < entries.len() && is_index(#[trigger] entries[i], names[k]);
            assert(offers_layout(tree, cache, entries, i, names[k]));
        }
        if exists|i: int, name: Seq<u8>| offers_layout(tree, cache, entries, i, name) {
            let (i, name) = choose|i: int, name: Seq<u8>|
                offers_layout(tree, cache, entries, i, name);
            assert(is_index(entries[i], name));
            lemma_index_names(entries, name);
            lemma_sorted_holds(plain, names_before(), name);
            let k = choose|k: int| 0 <= k < names.len() && names[k] == name;
            assert(complete_index(tree, joined(cache, names[k])));
        }
    }
}

} // verus!
