//! What the kernel's CPU directory says about each online CPU.
use vstd::prelude::*;

use vstd::string::StringExecFns;

use super::evidence::{
    evidence, DetectionEvidence, EvidenceKind, EvidenceSource, EvidenceStrength, EvidenceView,
};
use super::parser::{
    core_type, core_type_error_text, cpu_list, cpu_list_error_text, cpu_list_text, format_cpu_list,
    interpret_core_type, parse_cpu_list, CoreTypeInterpretation,
};
use super::types::{DetectorError, DetectorErrorView};
use crate::order::{
    ascending, contains_number, sorted_set, sorted_unique, stable_sort, stable_sorted,
};
use crate::path::{
    are_bytes_before, bytes_before, child, joined, lossy_text, path_text, FileRead, FileReadView,
    FileTree, FileTreeView, Listing, ListingEntry, ListingEntryView, ListingView, UnixPath,
};
use crate::text::{
    all_digits, decimal, decimal_text, digits_value, group_views, has_prefix, is_digit, join,
    join_text, parse_i64, parse_u32, parse_u64, same_text, signed_value, starts_with, trim,
    trim_text, unsigned_value, views, without_prefix, chars_of,
};

verus! {

/// What sysfs reports about one online CPU.
#[derive(Debug)]
pub struct CpuRecord {
    pub id: u32,
    pub package_id: Option<u32>,
    pub core_id: Option<u32>,
    pub siblings: Option<Vec<u32>>,
    pub core_type_metadata_present: bool,
    pub explicit_type: Option<CoreTypeInterpretation>,
    pub max_frequency_khz: Option<u64>,
    pub cache_fingerprint: Option<String>,
    pub evidence: Vec<DetectionEvidence>,
}

/// A CPU record by its contents.
pub struct CpuRecordView {
    pub id: u32,
    pub package_id: Option<u32>,
    pub core_id: Option<u32>,
    pub siblings: Option<Seq<u32>>,
    pub core_type_metadata_present: bool,
    pub explicit_type: Option<CoreTypeInterpretation>,
    pub max_frequency_khz: Option<u64>,
    pub cache_fingerprint: Option<Seq<char>>,
    pub evidence: Seq<EvidenceView>,
}

pub open spec fn optional_numbers(v: Option<Vec<u32>>) -> Option<Seq<u32>> {
    match v {
        Some(numbers) => Some(numbers@),
        None => None,
    }
}

pub open spec fn optional_string(v: Option<String>) -> Option<Seq<char>> {
    match v {
        Some(text) => Some(text@),
        None => None,
    }
}

impl View for CpuRecord {
    type V = CpuRecordView;

    open spec fn view(&self) -> CpuRecordView {
        CpuRecordView {
            id: self.id,
            package_id: self.package_id,
            core_id: self.core_id,
            siblings: optional_numbers(self.siblings),
            core_type_metadata_present: self.core_type_metadata_present,
            explicit_type: self.explicit_type,
            max_frequency_khz: self.max_frequency_khz,
            cache_fingerprint: optional_string(self.cache_fingerprint),
            evidence: views(self.evidence@),
        }
    }
}

/// The online CPUs and what is known of each.
#[derive(Debug)]
pub struct SysfsSnapshot {
    pub online_cpus: Vec<u32>,
    pub records: Vec<CpuRecord>,
    pub evidence: Vec<DetectionEvidence>,
}

/// A snapshot by its contents.
pub struct SysfsSnapshotView {
    pub online_cpus: Seq<u32>,
    pub records: Seq<CpuRecordView>,
    pub evidence: Seq<EvidenceView>,
}

impl View for SysfsSnapshot {
    type V = SysfsSnapshotView;

    open spec fn view(&self) -> SysfsSnapshotView {
        SysfsSnapshotView {
            online_cpus: self.online_cpus@,
            records: views(self.records@),
            evidence: views(self.evidence@),
        }
    }
}

impl SysfsSnapshotView {
    /// There is one record for each online CPU, in ascending order.
    pub open spec fn well_formed(self) -> bool {
        &&& ascending(self.online_cpus)
        &&& self.online_cpus.len() > 0
        &&& self.records.len() == self.online_cpus.len()
        &&& forall|i: int|
            0 <= i < self.records.len() ==> (#[trigger] self.records[i]).id == self.online_cpus[i]
    }
}

/// What stands at the root of the CPU directory.
#[derive(Debug, PartialEq, Eq)]
pub enum RootStatus {
    Directory,
    NotDirectory,
    /// The root could not be inspected; the system's message.
    Failed(String),
}

/// Reads a CPU directory below a root.
#[derive(Debug)]
pub struct SysfsCpuSource {
    pub root: UnixPath,
}

pub open spec fn cpu_path(root: Seq<u8>, cpu: u32) -> Seq<u8> {
    child(root, "cpu"@ + decimal(cpu as nat))
}

/// The text of an optional file, and what is noted where it cannot be read.
pub open spec fn optional_text(tree: FileTreeView, path: Seq<u8>, cpus: Seq<u32>) -> (
    Option<Seq<char>>,
    Seq<EvidenceView>,
) {
    match tree.read(path) {
        FileReadView::Contents(text) => (Some(text), Seq::empty()),
        FileReadView::Missing => (None, Seq::empty()),
        FileReadView::Failed(message) => (
            None,
            seq![
                evidence(
                    EvidenceSource::Classifier,
                    cpus,
                    message,
                    "Optional sysfs metadata "@ + lossy_text(path)
                        + " could not be read and was ignored."@,
                    EvidenceStrength::Weak,
                    EvidenceKind::Warning,
                ),
            ],
        ),
    }
}

fn one_cpu(cpu: u32) -> (out: Vec<u32>)
    ensures
        out@ == seq![cpu],
{
    let mut out: Vec<u32> = Vec::new();
    out.push(cpu);
    assert(out@ =~= seq![cpu]);
    out
}

/// Add an observation about some CPUs.
pub(crate) fn note(
    notes: &mut Vec<DetectionEvidence>,
    source: EvidenceSource,
    cpus: &Vec<u32>,
    observed: String,
    interpretation: String,
    strength: EvidenceStrength,
    kind: EvidenceKind,
)
    ensures
        views(final(notes)@) == views(old(notes)@) + seq![
            evidence(source, cpus@, observed@, interpretation@, strength, kind),
        ],
{
    broadcast use group_views;

    notes.push(DetectionEvidence::new(source, cpus, observed, interpretation, strength, kind));
}

fn read_optional_text(
    tree: &FileTree,
    path: &UnixPath,
    notes: &mut Vec<DetectionEvidence>,
    cpus: &Vec<u32>,
) -> (out: Option<String>)
    ensures
        optional_string(out) == optional_text(tree@, path@, cpus@).0,
        views(final(notes)@) == views(old(notes)@) + optional_text(tree@, path@, cpus@).1,
{
    match tree.read(path) {
        FileRead::Contents(text) => Some(text),
        FileRead::Missing => None,
        FileRead::Failed(message) => {
            note(
                notes,
                EvidenceSource::Classifier,
                cpus,
                message,
                "Optional sysfs metadata ".to_owned().concat(path.display().as_str()).concat(
                    " could not be read and was ignored.",
                ),
                EvidenceStrength::Weak,
                EvidenceKind::Warning,
            );
            None
        },
    }
}

/// A package or core identifier; `-1` stands for an unknown one.
pub open spec fn topology_id(tree: FileTreeView, path: Seq<u8>, cpu: u32, name: Seq<char>) -> (
    Option<u32>,
    Seq<EvidenceView>,
) {
    let (text, notes) = optional_text(tree, path, seq![cpu]);
    match text {
        None => (None, notes),
        Some(contents) => match signed_value(trim(contents)) {
            Some(value) => if value == -1 {
                (None, notes)
            } else if 0 <= value <= u32::MAX {
                (Some(value as u32), notes)
            } else {
                (None, notes + seq![bad_topology_id(contents, cpu, name)])
            },
            None => (None, notes + seq![bad_topology_id(contents, cpu, name)]),
        },
    }
}

pub open spec fn bad_topology_id(contents: Seq<char>, cpu: u32, name: Seq<char>) -> EvidenceView {
    evidence(
        EvidenceSource::TopologyIds,
        seq![cpu],
        trim(contents),
        name + " for CPU "@ + decimal(cpu as nat)
            + " is malformed or unsupported and was ignored."@,
        EvidenceStrength::Moderate,
        EvidenceKind::Warning,
    )
}

fn read_topology_id(
    tree: &FileTree,
    path: &UnixPath,
    cpu: u32,
    name: &str,
    notes: &mut Vec<DetectionEvidence>,
) -> (out: Option<u32>)
    ensures
        out == topology_id(tree@, path@, cpu, name@).0,
        views(final(notes)@) == views(old(notes)@) + topology_id(tree@, path@, cpu, name@).1,
{
    match read_optional_text(tree, path, notes, &one_cpu(cpu)) {
        None => None,
        Some(contents) => {
            match parse_i64(trim_text(contents.as_str())) {
                Some(value) => {
                    if value == -1 {
                        return None;
                    } else if 0 <= value && value <= 0xFFFF_FFFF {
                        return Some(value as u32);
                    }
                },
                None => {},
            }
            note(
                notes,
                EvidenceSource::TopologyIds,
                &one_cpu(cpu),
                trim_text(contents.as_str()).to_owned(),
                name.to_owned().concat(" for CPU ").concat(
                    decimal_text(cpu as u64).as_str(),
                ).concat(" is malformed or unsupported and was ignored."),
                EvidenceStrength::Moderate,
                EvidenceKind::Warning,
            );
            None
        },
    }
}

/// Whether `core_type` metadata exists, and the class that it states.
pub open spec fn core_type_record(tree: FileTreeView, path: Seq<u8>, cpu: u32) -> (
    (bool, Option<CoreTypeInterpretation>),
    Seq<EvidenceView>,
) {
    let (text, notes) = optional_text(tree, path, seq![cpu]);
    match text {
        None => ((false, None), notes),
        Some(contents) => match core_type(contents) {
            Ok(CoreTypeInterpretation::Unsupported(value)) => (
                (true, None),
                notes + seq![
                    evidence(
                        EvidenceSource::CoreType,
                        seq![cpu],
                        decimal(value as nat),
                        "CPU "@ + decimal(cpu as nat)
                            + " exposes an unsupported core_type value; no core class was inferred from it."@,
                        EvidenceStrength::Explicit,
                        EvidenceKind::Warning,
                    ),
                ],
            ),
            Ok(interpreted) => ((true, Some(interpreted)), notes),
            Err(error) => (
                (true, None),
                notes + seq![
                    evidence(
                        EvidenceSource::CoreType,
                        seq![cpu],
                        trim(contents),
                        "CPU "@ + decimal(cpu as nat) + " has malformed core_type metadata: "@
                            + core_type_error_text(error) + "."@,
                        EvidenceStrength::Explicit,
                        EvidenceKind::Warning,
                    ),
                ],
            ),
        },
    }
}

fn read_core_type(
    tree: &FileTree,
    path: &UnixPath,
    cpu: u32,
    notes: &mut Vec<DetectionEvidence>,
) -> (out: (bool, Option<CoreTypeInterpretation>))
    ensures
        out == core_type_record(tree@, path@, cpu).0,
        views(final(notes)@) == views(old(notes)@) + core_type_record(tree@, path@, cpu).1,
{
    match read_optional_text(tree, path, notes, &one_cpu(cpu)) {
        None => (false, None),
        Some(contents) => match interpret_core_type(contents.as_str()) {
            Ok(CoreTypeInterpretation::Unsupported(value)) => {
                note(
                    notes,
                    EvidenceSource::CoreType,
                    &one_cpu(cpu),
                    decimal_text(value as u64),
                    "CPU ".to_owned().concat(decimal_text(cpu as u64).as_str()).concat(
                        " exposes an unsupported core_type value; no core class was inferred from it.",
                    ),
                    EvidenceStrength::Explicit,
                    EvidenceKind::Warning,
                );
                (true, None)
            },
            Ok(interpreted) => (true, Some(interpreted)),
            Err(error) => {
                note(
                    notes,
                    EvidenceSource::CoreType,
                    &one_cpu(cpu),
                    trim_text(contents.as_str()).to_owned(),
                    "CPU ".to_owned().concat(decimal_text(cpu as u64).as_str()).concat(
                        " has malformed core_type metadata: ",
                    ).concat(error.message().as_str()).concat("."),
                    EvidenceStrength::Explicit,
                    EvidenceKind::Warning,
                );
                (true, None)
            },
        },
    }
}

/// Membership in a set of CPUs, or the lack of it.
pub open spec fn member_is(set: Seq<u32>, member: bool) -> spec_fn(u32) -> bool {
    |cpu: u32| set.contains(cpu) == member
}

/// The CPUs that are in a set, or those that are not.
pub(crate) fn select_cpus(cpus: &Vec<u32>, set: &Vec<u32>, member: bool) -> (out: Vec<u32>)
    ensures
        out@ == cpus@.filter(member_is(set@, member)),
{
    let mut out: Vec<u32> = Vec::new();
    let mut i: usize = 0;
    let ghost keep = member_is(set@, member);
    proof {
        reveal(Seq::filter);
        assert(cpus@.take(0).filter(keep) =~= Seq::empty());
    }
    while i < cpus.len()
        invariant
            i <= cpus@.len(),
            keep == member_is(set@, member),
            out@ == cpus@.take(i as int).filter(keep),
        decreases cpus.len() - i,
    {
        proof {
            assert(cpus@.take(i + 1) =~= cpus@.take(i as int).push(cpus@[i as int]));
            cpus@.take(i as int).lemma_filter_push(cpus@[i as int], keep);
        }
        if contains_number(set, cpus[i]) == member {
            out.push(cpus[i]);
        }
        i += 1;
    }
    assert(cpus@.take(cpus@.len() as int) =~= cpus@);
    out
}

/// The online siblings that one file names, and what is noted about it.
pub open spec fn sibling_file(
    tree: FileTreeView,
    topology: Seq<u8>,
    filename: Seq<char>,
    cpu: u32,
    online: Seq<u32>,
) -> (Option<Seq<u32>>, Seq<EvidenceView>) {
    let (text, notes) = optional_text(tree, child(topology, filename), seq![cpu]);
    match text {
        None => (None, notes),
        Some(contents) => match cpu_list(contents) {
            Ok(parsed) => if !parsed.contains(cpu) {
                (
                    None,
                    notes + seq![
                        evidence(
                            EvidenceSource::ThreadSiblings,
                            seq![cpu],
                            trim(contents),
                            filename + " for CPU "@ + decimal(cpu as nat)
                                + " does not contain the CPU itself and was ignored."@,
                            EvidenceStrength::Strong,
                            EvidenceKind::Contradiction,
                        ),
                    ],
                )
            } else {
                let offline = parsed.filter(member_is(online, false));
                (
                    Some(parsed.filter(member_is(online, true))),
                    if offline.len() == 0 {
                        notes
                    } else {
                        notes + seq![
                            evidence(
                                EvidenceSource::ThreadSiblings,
                                offline,
                                trim(contents),
                                "Offline siblings were excluded from the active physical-core group."@,
                                EvidenceStrength::Strong,
                                EvidenceKind::Observation,
                            ),
                        ]
                    },
                )
            },
            Err(error) => (
                None,
                notes + seq![
                    evidence(
                        EvidenceSource::ThreadSiblings,
                        seq![cpu],
                        trim(contents),
                        filename + " for CPU "@ + decimal(cpu as nat)
                            + " is malformed and was ignored: "@ + cpu_list_error_text(error)
                            + "."@,
                        EvidenceStrength::Moderate,
                        EvidenceKind::Warning,
                    ),
                ],
            ),
        },
    }
}

/// The online siblings of a CPU, from the first file that names them.
pub open spec fn siblings(
    tree: FileTreeView,
    topology: Seq<u8>,
    cpu: u32,
    online: Seq<u32>,
) -> (Option<Seq<u32>>, Seq<EvidenceView>) {
    let first = sibling_file(tree, topology, "core_cpus_list"@, cpu, online);
    if first.0 is Some {
        first
    } else {
        let second = sibling_file(tree, topology, "thread_siblings_list"@, cpu, online);
        (second.0, first.1 + second.1)
    }
}

fn read_sibling_file(
    tree: &FileTree,
    topology: &UnixPath,
    filename: &str,
    cpu: u32,
    online: &Vec<u32>,
    notes: &mut Vec<DetectionEvidence>,
) -> (out: Option<Vec<u32>>)
    ensures
        optional_numbers(out) == sibling_file(tree@, topology@, filename@, cpu, online@).0,
        views(final(notes)@) == views(old(notes)@) + sibling_file(
            tree@,
            topology@,
            filename@,
            cpu,
            online@,
        ).1,
{
    let contents = match read_optional_text(tree, &topology.join(filename), notes, &one_cpu(cpu)) {
        None => {
            return None;
        },
        Some(contents) => contents,
    };
    match parse_cpu_list(contents.as_str()) {
        Ok(parsed) => {
            if !contains_number(&parsed, cpu) {
                note(
                    notes,
                    EvidenceSource::ThreadSiblings,
                    &one_cpu(cpu),
                    trim_text(contents.as_str()).to_owned(),
                    filename.to_owned().concat(" for CPU ").concat(
                        decimal_text(cpu as u64).as_str(),
                    ).concat(" does not contain the CPU itself and was ignored."),
                    EvidenceStrength::Strong,
                    EvidenceKind::Contradiction,
                );
                return None;
            }
            let active = select_cpus(&parsed, online, true);
            let offline = select_cpus(&parsed, online, false);
            if offline.len() > 0 {
                note(
                    notes,
                    EvidenceSource::ThreadSiblings,
                    &offline,
                    trim_text(contents.as_str()).to_owned(),
                    "Offline siblings were excluded from the active physical-core group.".to_owned(),
                    EvidenceStrength::Strong,
                    EvidenceKind::Observation,
                );
            }
            Some(active)
        },
        Err(error) => {
            note(
                notes,
                EvidenceSource::ThreadSiblings,
                &one_cpu(cpu),
                trim_text(contents.as_str()).to_owned(),
                filename.to_owned().concat(" for CPU ").concat(
                    decimal_text(cpu as u64).as_str(),
                ).concat(" is malformed and was ignored: ").concat(
                    error.message().as_str(),
                ).concat("."),
                EvidenceStrength::Moderate,
                EvidenceKind::Warning,
            );
            None
        },
    }
}

fn read_siblings(
    tree: &FileTree,
    cpu: u32,
    topology: &UnixPath,
    online: &Vec<u32>,
    notes: &mut Vec<DetectionEvidence>,
) -> (out: Option<Vec<u32>>)
    ensures
        optional_numbers(out) == siblings(tree@, topology@, cpu, online@).0,
        views(final(notes)@) == views(old(notes)@) + siblings(tree@, topology@, cpu, online@).1,
{
    match read_sibling_file(tree, topology, "core_cpus_list", cpu, online, notes) {
        Some(active) => Some(active),
        None => read_sibling_file(tree, topology, "thread_siblings_list", cpu, online, notes),
    }
}

/// The positive frequency that one file states.
pub open spec fn frequency_file(
    tree: FileTreeView,
    cpufreq: Seq<u8>,
    filename: Seq<char>,
    cpu: u32,
) -> (Option<u64>, Seq<EvidenceView>) {
    let (text, notes) = optional_text(tree, child(cpufreq, filename), seq![cpu]);
    match text {
        None => (None, notes),
        Some(contents) => {
            let value = unsigned_value(trim(contents));
            if value is Some && 0 < value->0 <= u64::MAX {
                (Some(value->0 as u64), notes)
            } else {
                (
                    None,
                    notes + seq![
                        evidence(
                            EvidenceSource::MaximumFrequency,
                            seq![cpu],
                            trim(contents),
                            filename + " for CPU "@ + decimal(cpu as nat)
                                + " is not a positive integer and was ignored."@,
                            EvidenceStrength::Weak,
                            EvidenceKind::Warning,
                        ),
                    ],
                )
            }
        },
    }
}

/// The maximum frequency of a CPU, from the first file that states one.
pub open spec fn max_frequency(tree: FileTreeView, root: Seq<u8>, cpu: u32) -> (
    Option<u64>,
    Seq<EvidenceView>,
) {
    let cpufreq = child(cpu_path(root, cpu), "cpufreq"@);
    let first = frequency_file(tree, cpufreq, "cpuinfo_max_freq"@, cpu);
    if first.0 is Some {
        first
    } else {
        let second = frequency_file(tree, cpufreq, "scaling_max_freq"@, cpu);
        (second.0, first.1 + second.1)
    }
}

fn read_frequency_file(
    tree: &FileTree,
    cpufreq: &UnixPath,
    filename: &str,
    cpu: u32,
    notes: &mut Vec<DetectionEvidence>,
) -> (out: Option<u64>)
    ensures
        out == frequency_file(tree@, cpufreq@, filename@, cpu).0,
        views(final(notes)@) == views(old(notes)@) + frequency_file(
            tree@,
            cpufreq@,
            filename@,
            cpu,
        ).1,
{
    match read_optional_text(tree, &cpufreq.join(filename), notes, &one_cpu(cpu)) {
        None => None,
        Some(contents) => {
            match parse_u64(trim_text(contents.as_str())) {
                Some(value) => {
                    if value > 0 {
                        return Some(value);
                    }
                },
                None => {},
            }
            note(
                notes,
                EvidenceSource::MaximumFrequency,
                &one_cpu(cpu),
                trim_text(contents.as_str()).to_owned(),
                filename.to_owned().concat(" for CPU ").concat(
                    decimal_text(cpu as u64).as_str(),
                ).concat(" is not a positive integer and was ignored."),
                EvidenceStrength::Weak,
                EvidenceKind::Warning,
            );
            None
        },
    }
}

/// One index directory of a CPU's cache: its summary, and what is noted.
pub open spec fn cache_index(
    tree: FileTreeView,
    index: Seq<u8>,
    cpu: u32,
    online: Seq<u32>,
) -> (Option<Seq<char>>, Seq<EvidenceView>) {
    let level = optional_text(tree, child(index, "level"@), seq![cpu]);
    let cache_type = optional_text(tree, child(index, "type"@), seq![cpu]);
    let size = optional_text(tree, child(index, "size"@), seq![cpu]);
    let shared = optional_text(tree, child(index, "shared_cpu_list"@), seq![cpu]);
    let notes = level.1 + cache_type.1 + size.1 + shared.1;
    if level.0 is Some && cache_type.0 is Some && size.0 is Some && shared.0 is Some {
        match cpu_list(shared.0->0) {
            Ok(cpus) => (
                Some(
                    "L"@ + trim(level.0->0) + ":"@ + trim(cache_type.0->0) + ":"@ + trim(
                        size.0->0,
                    ) + ":shared="@ + decimal(cpus.filter(member_is(online, true)).len()),
                ),
                notes,
            ),
            Err(error) => (
                None,
                notes + seq![
                    evidence(
                        EvidenceSource::CacheTopology,
                        seq![cpu],
                        trim(shared.0->0),
                        "A shared_cpu_list cache attribute for CPU "@ + decimal(cpu as nat)
                            + " is malformed and was ignored: "@ + cpu_list_error_text(error)
                            + "."@,
                        EvidenceStrength::Weak,
                        EvidenceKind::Warning,
                    ),
                ],
            ),
        }
    } else {
        (None, notes)
    }
}

fn read_cache_index(
    tree: &FileTree,
    index: &UnixPath,
    cpu: u32,
    online: &Vec<u32>,
    notes: &mut Vec<DetectionEvidence>,
) -> (out: Option<String>)
    ensures
        optional_string(out) == cache_index(tree@, index@, cpu, online@).0,
        views(final(notes)@) == views(old(notes)@) + cache_index(tree@, index@, cpu, online@).1,
{
    let level = read_optional_text(tree, &index.join("level"), notes, &one_cpu(cpu));
    let cache_type = read_optional_text(tree, &index.join("type"), notes, &one_cpu(cpu));
    let size = read_optional_text(tree, &index.join("size"), notes, &one_cpu(cpu));
    let shared = read_optional_text(tree, &index.join("shared_cpu_list"), notes, &one_cpu(cpu));
    match (level, cache_type, size, shared) {
        (Some(level), Some(cache_type), Some(size), Some(shared)) => {
            match parse_cpu_list(shared.as_str()) {
                Ok(shared_cpus) => {
                    let active = select_cpus(&shared_cpus, online, true);
                    Some(
                        "L".to_owned().concat(trim_text(level.as_str())).concat(":").concat(
                            trim_text(cache_type.as_str()),
                        ).concat(":").concat(trim_text(size.as_str())).concat(":shared=").concat(
                            decimal_text(active.len() as u64).as_str(),
                        ),
                    )
                },
                Err(error) => {
                    note(
                        notes,
                        EvidenceSource::CacheTopology,
                        &one_cpu(cpu),
                        trim_text(shared.as_str()).to_owned(),
                        "A shared_cpu_list cache attribute for CPU ".to_owned().concat(
                            decimal_text(cpu as u64).as_str(),
                        ).concat(" is malformed and was ignored: ").concat(
                            error.message().as_str(),
                        ).concat("."),
                        EvidenceStrength::Weak,
                        EvidenceKind::Warning,
                    );
                    None
                },
            }
        },
        _ => None,
    }
}

/// The index names in a cache directory, in the order of its listing.
pub open spec fn index_names(entries: Seq<ListingEntryView>) -> Seq<Seq<u8>>
    decreases entries.len(),
{
    if entries.len() == 0 {
        Seq::empty()
    } else {
        let front = index_names(entries.drop_last());
        match entries.last() {
            ListingEntryView::Name(name) => if path_text(name) is Some && starts_with(
                path_text(name)->0,
                "index"@,
            ) {
                front.push(name)
            } else {
                front
            },
            ListingEntryView::Failed(_) => front,
        }
    }
}

/// What is noted about the entries of a cache directory.
pub open spec fn listing_notes(entries: Seq<ListingEntryView>, cpu: u32) -> Seq<EvidenceView>
    decreases entries.len(),
{
    if entries.len() == 0 {
        Seq::empty()
    } else {
        let front = listing_notes(entries.drop_last(), cpu);
        match entries.last() {
            ListingEntryView::Name(_) => front,
            ListingEntryView::Failed(message) => front.push(
                evidence(
                    EvidenceSource::CacheTopology,
                    seq![cpu],
                    message,
                    "A cache directory entry for CPU "@ + decimal(cpu as nat)
                        + " could not be read and was ignored."@,
                    EvidenceStrength::Weak,
                    EvidenceKind::Warning,
                ),
            ),
        }
    }
}

/// The summaries of the given index directories, and what is noted.
pub open spec fn cache_indexes(
    tree: FileTreeView,
    cache: Seq<u8>,
    names: Seq<Seq<u8>>,
    cpu: u32,
    online: Seq<u32>,
) -> (Seq<Seq<char>>, Seq<EvidenceView>)
    decreases names.len(),
{
    if names.len() == 0 {
        (Seq::empty(), Seq::empty())
    } else {
        let front = cache_indexes(tree, cache, names.drop_last(), cpu, online);
        let last = cache_index(tree, joined(cache, names.last()), cpu, online);
        (
            match last.0 {
                Some(part) => front.0.push(part),
                None => front.0,
            },
            front.1 + last.1,
        )
    }
}

pub open spec fn names_before() -> spec_fn(Seq<u8>, Seq<u8>) -> bool {
    |a: Seq<u8>, b: Seq<u8>| bytes_before(a, b)
}

/// The cache layout of a CPU: the summaries of its index directories, in the
/// order of their names.
pub open spec fn cache_fingerprint(
    tree: FileTreeView,
    root: Seq<u8>,
    cpu: u32,
    online: Seq<u32>,
) -> (Option<Seq<char>>, Seq<EvidenceView>) {
    let cache = child(cpu_path(root, cpu), "cache"@);
    match tree.list(cache) {
        ListingView::Missing => (None, Seq::empty()),
        ListingView::Failed(message) => (
            None,
            seq![
                evidence(
                    EvidenceSource::CacheTopology,
                    seq![cpu],
                    message,
                    "Cache metadata for CPU "@ + decimal(cpu as nat)
                        + " could not be read and was ignored."@,
                    EvidenceStrength::Weak,
                    EvidenceKind::Warning,
                ),
            ],
        ),
        ListingView::Entries(entries) => {
            let names = stable_sorted(index_names(entries), names_before());
            let (parts, notes) = cache_indexes(tree, cache, names, cpu, online);
            (
                if parts.len() == 0 {
                    None
                } else {
                    Some(join(parts, "|"@))
                },
                listing_notes(entries, cpu) + notes,
            )
        },
    }
}

pub(crate) fn list_index_names(
    entries: &Vec<ListingEntry>,
    cpu: u32,
    notes: &mut Vec<DetectionEvidence>,
) -> (out: Vec<UnixPath>)
    ensures
        views(out@) == index_names(views(entries@)),
        views(final(notes)@) == views(old(notes)@) + listing_notes(views(entries@), cpu),
{
    broadcast use group_views;

    let ghost all = views(entries@);
    let mut out: Vec<UnixPath> = Vec::new();
    let mut i: usize = 0;
    assert(all.take(0) =~= Seq::empty());
    while i < entries.len()
        invariant
            i <= entries@.len(),
            all == views(entries@),
            views(out@) == index_names(all.take(i as int)),
            views(notes@) == views(old(notes)@) + listing_notes(all.take(i as int), cpu),
        decreases entries.len() - i,
    {
        assert(all.take(i + 1).drop_last() =~= all.take(i as int));
        assert(all.take(i + 1).last() == entries@[i as int]@);
        match &entries[i] {
            ListingEntry::Name(name) => {
                match name.to_text() {
                    Some(text) => {
                        if has_prefix(text.as_str(), "index") {
                            out.push(name.clone());
                        }
                    },
                    None => {},
                }
            },
            ListingEntry::Failed(message) => {
                note(
                    notes,
                    EvidenceSource::CacheTopology,
                    &one_cpu(cpu),
                    message.clone(),
                    "A cache directory entry for CPU ".to_owned().concat(
                        decimal_text(cpu as u64).as_str(),
                    ).concat(" could not be read and was ignored."),
                    EvidenceStrength::Weak,
                    EvidenceKind::Warning,
                );
                assert(views(notes@) =~= views(old(notes)@) + listing_notes(all.take(i + 1), cpu));
            },
        }
        i += 1;
    }
    assert(all.take(all.len() as int) =~= all);
    out
}

fn sort_names(names: Vec<UnixPath>) -> (out: Vec<UnixPath>)
    ensures
        views(out@) == stable_sorted(views(names@), names_before()),
{
    let ghost before = |a: UnixPath, b: UnixPath| bytes_before(a@, b@);
    proof {
        crate::order::lemma_stable_sorted_map(
            names@,
            |p: UnixPath| p@,
            before,
            names_before(),
        );
    }
    stable_sort(names, is_name_before, Ghost(before))
}

fn is_name_before(a: &UnixPath, b: &UnixPath) -> (before: bool)
    ensures
        before == bytes_before(a@, b@),
{
    are_bytes_before(a.bytes.as_slice(), b.bytes.as_slice())
}

fn read_cache_fingerprint(
    tree: &FileTree,
    root: &UnixPath,
    cpu: u32,
    online: &Vec<u32>,
    notes: &mut Vec<DetectionEvidence>,
) -> (out: Option<String>)
    ensures
        optional_string(out) == cache_fingerprint(tree@, root@, cpu, online@).0,
        views(final(notes)@) == views(old(notes)@) + cache_fingerprint(
            tree@,
            root@,
            cpu,
            online@,
        ).1,
{
    broadcast use group_views;

    let cache = cpu_directory(root, cpu).join("cache");
    let entries = match tree.list(&cache) {
        Listing::Missing => {
            return None;
        },
        Listing::Failed(message) => {
            note(
                notes,
                EvidenceSource::CacheTopology,
                &one_cpu(cpu),
                message.clone(),
                "Cache metadata for CPU ".to_owned().concat(
                    decimal_text(cpu as u64).as_str(),
                ).concat(" could not be read and was ignored."),
                EvidenceStrength::Weak,
                EvidenceKind::Warning,
            );
            return None;
        },
        Listing::Entries(entries) => entries,
    };
    let indexes = sort_names(list_index_names(entries, cpu, notes));
    let ghost names = views(indexes@);
    let ghost listed = views(notes@);
    let mut parts: Vec<String> = Vec::new();
    let mut i: usize = 0;
    assert(names.take(0) =~= Seq::empty());
    while i < indexes.len()
        invariant
            i <= indexes@.len(),
            names == views(indexes@),
            views(parts@) == cache_indexes(tree@, cache@, names.take(i as int), cpu, online@).0,
            views(notes@) == listed + cache_indexes(
                tree@,
                cache@,
                names.take(i as int),
                cpu,
                online@,
            ).1,
        decreases indexes.len() - i,
    {
        assert(names.take(i + 1).drop_last() =~= names.take(i as int));
        assert(names.take(i + 1).last() == indexes@[i as int]@);
        match read_cache_index(tree, &cache.join_path(&indexes[i]), cpu, online, notes) {
            Some(part) => {
                parts.push(part);
            },
            None => {},
        }
        i += 1;
        assert(views(notes@) =~= listed + cache_indexes(
            tree@,
            cache@,
            names.take(i as int),
            cpu,
            online@,
        ).1);
    }
    assert(names.take(names.len() as int) =~= names);
    assert(views(parts@).len() == parts@.len());
    if parts.len() == 0 {
        None
    } else {
        Some(join_text(&parts, "|"))
    }
}

pub(crate) fn cpu_directory(root: &UnixPath, cpu: u32) -> (out: UnixPath)
    ensures
        out@ == cpu_path(root@, cpu),
{
    root.join("cpu".to_owned().concat(decimal_text(cpu as u64).as_str()).as_str())
}

/// All that is recorded about one online CPU.
#[verifier::opaque]
pub open spec fn cpu_record(tree: FileTreeView, root: Seq<u8>, cpu: u32, online: Seq<u32>) -> CpuRecordView {
    let topology = child(cpu_path(root, cpu), "topology"@);
    let package_id = topology_id(
        tree,
        child(topology, "physical_package_id"@),
        cpu,
        "physical_package_id"@,
    );
    let core_id = topology_id(tree, child(topology, "core_id"@), cpu, "core_id"@);
    let sibling_cpus = siblings(tree, topology, cpu, online);
    let explicit = core_type_record(tree, child(topology, "core_type"@), cpu);
    let frequency = max_frequency(tree, root, cpu);
    let cache = cache_fingerprint(tree, root, cpu, online);
    CpuRecordView {
        id: cpu,
        package_id: package_id.0,
        core_id: core_id.0,
        siblings: sibling_cpus.0,
        core_type_metadata_present: explicit.0.0,
        explicit_type: explicit.0.1,
        max_frequency_khz: frequency.0,
        cache_fingerprint: cache.0,
        evidence: package_id.1 + core_id.1 + sibling_cpus.1 + explicit.1 + frequency.1 + cache.1,
    }
}

fn collect_cpu(tree: &FileTree, root: &UnixPath, cpu: u32, online: &Vec<u32>) -> (out: CpuRecord)
    ensures
        out@ == cpu_record(tree@, root@, cpu, online@),
        out.id == cpu,
{
    reveal(cpu_record);
    let mut notes: Vec<DetectionEvidence> = Vec::new();
    let topology = cpu_directory(root, cpu).join("topology");
    let package_id = read_topology_id(
        tree,
        &topology.join("physical_package_id"),
        cpu,
        "physical_package_id",
        &mut notes,
    );
    let core_id = read_topology_id(tree, &topology.join("core_id"), cpu, "core_id", &mut notes);
    let siblings = read_siblings(tree, cpu, &topology, online, &mut notes);
    let (core_type_metadata_present, explicit_type) = read_core_type(
        tree,
        &topology.join("core_type"),
        cpu,
        &mut notes,
    );
    let max_frequency_khz = read_max_frequency(tree, root, cpu, &mut notes);
    let cache_fingerprint = read_cache_fingerprint(tree, root, cpu, online, &mut notes);
    let out = CpuRecord {
        id: cpu,
        package_id,
        core_id,
        siblings,
        core_type_metadata_present,
        explicit_type,
        max_frequency_khz,
        cache_fingerprint,
        evidence: notes,
    };
    assert(out@.evidence =~= cpu_record(tree@, root@, cpu, online@).evidence);
    out
}

fn read_max_frequency(
    tree: &FileTree,
    root: &UnixPath,
    cpu: u32,
    notes: &mut Vec<DetectionEvidence>,
) -> (out: Option<u64>)
    ensures
        out == max_frequency(tree@, root@, cpu).0,
        views(final(notes)@) == views(old(notes)@) + max_frequency(tree@, root@, cpu).1,
{
    let cpufreq = cpu_directory(root, cpu).join("cpufreq");
    match read_frequency_file(tree, &cpufreq, "cpuinfo_max_freq", cpu, notes) {
        Some(value) => Some(value),
        None => read_frequency_file(tree, &cpufreq, "scaling_max_freq", cpu, notes),
    }
}

/// Whether a CPU counts as online where no global list exists, and what is
/// noted about it.
pub open spec fn online_flag(tree: FileTreeView, root: Seq<u8>, cpu: u32) -> (
    bool,
    Option<EvidenceView>,
) {
    match tree.read(child(cpu_path(root, cpu), "online"@)) {
        FileReadView::Contents(contents) => if trim(contents) == "1"@ {
            (true, None)
        } else if trim(contents) == "0"@ {
            (
                false,
                Some(
                    evidence(
                        EvidenceSource::PerCpuOnline,
                        seq![cpu],
                        "0"@,
                        "CPU "@ + decimal(cpu as nat) + " is offline and was excluded."@,
                        EvidenceStrength::Explicit,
                        EvidenceKind::Observation,
                    ),
                ),
            )
        } else {
            (
                false,
                Some(
                    evidence(
                        EvidenceSource::PerCpuOnline,
                        seq![cpu],
                        trim(contents),
                        "CPU "@ + decimal(cpu as nat)
                            + " has a malformed online flag and was conservatively excluded."@,
                        EvidenceStrength::Strong,
                        EvidenceKind::Warning,
                    ),
                ),
            )
        },
        FileReadView::Missing => (
            true,
            Some(
                evidence(
                    EvidenceSource::PerCpuOnline,
                    seq![cpu],
                    "missing"@,
                    "CPU "@ + decimal(cpu as nat)
                        + " has no per-CPU online flag; Linux omits this for CPUs which cannot be offlined, so it was treated as online."@,
                    EvidenceStrength::Moderate,
                    EvidenceKind::Observation,
                ),
            ),
        ),
        FileReadView::Failed(message) => (
            false,
            Some(
                evidence(
                    EvidenceSource::PerCpuOnline,
                    seq![cpu],
                    message,
                    "CPU "@ + decimal(cpu as nat)
                        + "'s online flag could not be read and the CPU was conservatively excluded."@,
                    EvidenceStrength::Moderate,
                    EvidenceKind::Warning,
                ),
            ),
        ),
    }
}

fn read_online_flag(
    tree: &FileTree,
    root: &UnixPath,
    cpu: u32,
    notes: &mut Vec<DetectionEvidence>,
) -> (online: bool)
    ensures
        online == online_flag(tree@, root@, cpu).0,
        views(final(notes)@) == match online_flag(tree@, root@, cpu).1 {
            Some(item) => views(old(notes)@).push(item),
            None => views(old(notes)@),
        },
{
    broadcast use group_views;

    let cpus = one_cpu(cpu);
    let name = "CPU ".to_owned().concat(decimal_text(cpu as u64).as_str());
    match tree.read(&cpu_directory(root, cpu).join("online")) {
        FileRead::Contents(contents) => {
            let flag = trim_text(contents.as_str());
            if same_text(flag, "1") {
                return true;
            }
            if same_text(flag, "0") {
                notes.push(
                    DetectionEvidence::new(
                        EvidenceSource::PerCpuOnline,
                        &cpus,
                        "0".to_owned(),
                        name.concat(" is offline and was excluded."),
                        EvidenceStrength::Explicit,
                        EvidenceKind::Observation,
                    ),
                );
                return false;
            }
            notes.push(
                DetectionEvidence::new(
                    EvidenceSource::PerCpuOnline,
                    &cpus,
                    flag.to_owned(),
                    name.concat(" has a malformed online flag and was conservatively excluded."),
                    EvidenceStrength::Strong,
                    EvidenceKind::Warning,
                ),
            );
            false
        },
        FileRead::Missing => {
            notes.push(
                DetectionEvidence::new(
                    EvidenceSource::PerCpuOnline,
                    &cpus,
                    "missing".to_owned(),
                    name.concat(
                        " has no per-CPU online flag; Linux omits this for CPUs which cannot be offlined, so it was treated as online.",
                    ),
                    EvidenceStrength::Moderate,
                    EvidenceKind::Observation,
                ),
            );
            true
        },
        FileRead::Failed(message) => {
            notes.push(
                DetectionEvidence::new(
                    EvidenceSource::PerCpuOnline,
                    &cpus,
                    message,
                    name.concat(
                        "'s online flag could not be read and the CPU was conservatively excluded.",
                    ),
                    EvidenceStrength::Moderate,
                    EvidenceKind::Warning,
                ),
            );
            false
        },
    }
}

/// The CPU that a directory name such as `cpu3` stands for.
pub open spec fn directory_cpu(name: Seq<u8>) -> Option<u32> {
    match path_text(name) {
        Some(text) => if starts_with(text, "cpu"@) && all_digits(text.skip(3)) && digits_value(
            text.skip(3),
        ) <= u32::MAX {
            Some(digits_value(text.skip(3)) as u32)
        } else {
            None
        },
        None => None,
    }
}

/// The CPUs that have a directory, as the listing has them, or the message of
/// the first entry that could not be read.
pub open spec fn directory_cpus(entries: Seq<ListingEntryView>) -> Result<Seq<u32>, Seq<char>>
    decreases entries.len(),
{
    if entries.len() == 0 {
        Ok(Seq::empty())
    } else {
        match directory_cpus(entries.drop_last()) {
            Err(message) => Err(message),
            Ok(front) => match entries.last() {
                ListingEntryView::Failed(message) => Err(message),
                ListingEntryView::Name(name) => match directory_cpu(name) {
                    Some(cpu) => Ok(front.push(cpu)),
                    None => Ok(front),
                },
            },
        }
    }
}

fn parse_directory_cpu(name: &UnixPath) -> (out: Option<u32>)
    ensures
        out == directory_cpu(name@),
{
    proof {
        reveal_strlit("cpu");
    }
    match name.to_text() {
        Some(text) => match without_prefix(text.as_str(), "cpu") {
            Some(digits) => {
                let chars = chars_of(digits);
                if chars.len() > 0 && chars[0] != '+' {
                    parse_u32(digits)
                } else {
                    assert(!all_digits(digits@)) by {
                        if digits@.len() > 0 {
                            assert(!is_digit(digits@[0]));
                        }
                    }
                    None
                }
            },
            None => None,
        },
        None => None,
    }
}

proof fn lemma_directory_error(entries: Seq<ListingEntryView>, k: int)
    requires
        0 <= k <= entries.len(),
        directory_cpus(entries.take(k)) is Err,
    ensures
        directory_cpus(entries) == directory_cpus(entries.take(k)),
    decreases entries.len() - k,
{
    if k == entries.len() {
        assert(entries.take(k) =~= entries);
    } else {
        assert(entries.take(k + 1).drop_last() =~= entries.take(k));
        lemma_directory_error(entries, k + 1);
    }
}

/// What the system says of a directory that does not exist.
pub open spec fn no_such_directory() -> Seq<char> {
    "No such file or directory (os error 2)"@
}

/// The CPUs that have a directory below the root, in ascending order.
pub open spec fn listed_cpus(tree: FileTreeView, root: Seq<u8>) -> Result<Seq<u32>, Seq<char>> {
    match tree.list(root) {
        ListingView::Missing => Err(no_such_directory()),
        ListingView::Failed(message) => Err(message),
        ListingView::Entries(entries) => match directory_cpus(entries) {
            Ok(cpus) => Ok(sorted_set(cpus)),
            Err(message) => Err(message),
        },
    }
}

fn cpu_directories(tree: &FileTree, root: &UnixPath) -> (out: Result<Vec<u32>, String>)
    ensures
        match out {
            Ok(cpus) => listed_cpus(tree@, root@) == Ok::<Seq<u32>, Seq<char>>(cpus@) && ascending(
                cpus@,
            ),
            Err(message) => listed_cpus(tree@, root@) == Err::<Seq<u32>, Seq<char>>(message@),
        },
{
    let entries = match tree.list(root) {
        Listing::Missing => {
            return Err("No such file or directory (os error 2)".to_owned());
        },
        Listing::Failed(message) => {
            return Err(message.clone());
        },
        Listing::Entries(entries) => entries,
    };
    let ghost all = views(entries@);
    let mut cpus: Vec<u32> = Vec::new();
    let mut i: usize = 0;
    assert(all.take(0) =~= Seq::empty());
    while i < entries.len()
        invariant
            i <= entries@.len(),
            all == views(entries@),
            directory_cpus(all.take(i as int)) == Ok::<Seq<u32>, Seq<char>>(cpus@),
            tree@.list(root@) == ListingView::Entries(all),
        decreases entries.len() - i,
    {
        assert(all.take(i + 1).drop_last() =~= all.take(i as int));
        assert(all.take(i + 1).last() == entries@[i as int]@);
        match &entries[i] {
            ListingEntry::Name(name) => {
                match parse_directory_cpu(name) {
                    Some(cpu) => {
                        cpus.push(cpu);
                    },
                    None => {},
                }
            },
            ListingEntry::Failed(message) => {
                proof {
                    lemma_directory_error(all, i + 1);
                }
                return Err(message.clone());
            },
        }
        i += 1;
    }
    assert(all.take(all.len() as int) =~= all);
    Ok(sorted_unique(&cpus))
}

/// The CPUs whose flags have to be looked at where no global list exists.
pub open spec fn candidate_cpus(tree: FileTreeView, root: Seq<u8>) -> Result<
    Seq<u32>,
    DetectorErrorView,
> {
    let present = child(root, "present"@);
    match tree.read(present) {
        FileReadView::Contents(contents) => match cpu_list(contents) {
            Ok(cpus) => Ok(cpus),
            Err(source) => Err(
                DetectorErrorView::MalformedRequiredCpuList { path: present, source },
            ),
        },
        FileReadView::Missing => match listed_cpus(tree, root) {
            Ok(cpus) => if cpus.len() == 0 {
                Err(DetectorErrorView::NoCpus { path: root })
            } else {
                Ok(cpus)
            },
            Err(source) => Err(DetectorErrorView::SysfsRootUnavailable { path: root, source }),
        },
        FileReadView::Failed(source) => Err(
            DetectorErrorView::RequiredFileRead { path: present, source },
        ),
    }
}

pub open spec fn counts_as_online(tree: FileTreeView, root: Seq<u8>) -> spec_fn(u32) -> bool {
    |cpu: u32| online_flag(tree, root, cpu).0
}

/// What is noted about the flags of CPUs.
pub open spec fn flag_notes(tree: FileTreeView, root: Seq<u8>, cpus: Seq<u32>) -> Seq<EvidenceView>
    decreases cpus.len(),
{
    if cpus.len() == 0 {
        Seq::empty()
    } else {
        let front = flag_notes(tree, root, cpus.drop_last());
        match online_flag(tree, root, cpus.last()).1 {
            Some(item) => front.push(item),
            None => front,
        }
    }
}

/// The online CPUs as the per-CPU flags tell them, and what is noted.
pub open spec fn online_without_global(tree: FileTreeView, root: Seq<u8>) -> Result<
    (Seq<u32>, Seq<EvidenceView>),
    DetectorErrorView,
> {
    match candidate_cpus(tree, root) {
        Err(e) => Err(e),
        Ok(candidates) => {
            let online = candidates.filter(counts_as_online(tree, root));
            Ok(
                (
                    online,
                    flag_notes(tree, root, candidates).push(
                        evidence(
                            EvidenceSource::OnlineCpuList,
                            online,
                            cpu_list_text(online),
                            "The global online file was absent; active CPUs were resolved from present CPUs and per-CPU online flags."@,
                            EvidenceStrength::Strong,
                            EvidenceKind::Observation,
                        ),
                    ),
                ),
            )
        },
    }
}

pub(crate) fn find_candidates(tree: &FileTree, root: &UnixPath) -> (out: Result<Vec<u32>, DetectorError>)
    ensures
        match out {
            Ok(cpus) => candidate_cpus(tree@, root@) == Ok::<Seq<u32>, DetectorErrorView>(cpus@)
                && ascending(cpus@),
            Err(e) => candidate_cpus(tree@, root@) == Err::<Seq<u32>, DetectorErrorView>(e@),
        },
{
    let present = root.join("present");
    match tree.read(&present) {
        FileRead::Contents(contents) => match parse_cpu_list(contents.as_str()) {
            Ok(cpus) => Ok(cpus),
            Err(source) => Err(DetectorError::MalformedRequiredCpuList { path: present, source }),
        },
        FileRead::Missing => match cpu_directories(tree, root) {
            Ok(cpus) => if cpus.len() == 0 {
                Err(DetectorError::NoCpus { path: root.clone() })
            } else {
                Ok(cpus)
            },
            Err(source) => Err(DetectorError::SysfsRootUnavailable { path: root.clone(), source }),
        },
        FileRead::Failed(source) => Err(DetectorError::RequiredFileRead { path: present, source }),
    }
}

fn resolve_online_without_global(
    tree: &FileTree,
    root: &UnixPath,
    notes: &mut Vec<DetectionEvidence>,
) -> (out: Result<Vec<u32>, DetectorError>)
    ensures
        match out {
            Ok(cpus) => {
                let expected = online_without_global(tree@, root@);
                &&& expected is Ok
                &&& cpus@ == expected->Ok_0.0
                &&& ascending(cpus@)
                &&& views(final(notes)@) == views(old(notes)@) + expected->Ok_0.1
            },
            Err(e) => online_without_global(tree@, root@) == Err::<
                (Seq<u32>, Seq<EvidenceView>),
                DetectorErrorView,
            >(e@),
        },
{
    broadcast use group_views;

    let candidates = match find_candidates(tree, root) {
        Ok(candidates) => candidates,
        Err(e) => {
            return Err(e);
        },
    };
    let ghost keep = counts_as_online(tree@, root@);
    let mut online: Vec<u32> = Vec::new();
    let mut i: usize = 0;
    proof {
        reveal(Seq::filter);
        assert(candidates@.take(0).filter(keep) =~= Seq::empty());
        assert(candidates@.take(0) =~= Seq::empty());
    }
    while i < candidates.len()
        invariant
            i <= candidates@.len(),
            keep == counts_as_online(tree@, root@),
            ascending(candidates@),
            ascending(online@),
            forall|k: int, m: int|
                0 <= k < online@.len() && i <= m < candidates@.len() ==> online@[k]
                    < candidates@[m],
            online@ == candidates@.take(i as int).filter(keep),
            views(notes@) == views(old(notes)@) + flag_notes(
                tree@,
                root@,
                candidates@.take(i as int),
            ),
        decreases candidates.len() - i,
    {
        let cpu: u32 = candidates[i];
        proof {
            assert(candidates@.take(i + 1) =~= candidates@.take(i as int).push(cpu));
            candidates@.take(i as int).lemma_filter_push(cpu, keep);
            assert(candidates@.take(i + 1).drop_last() =~= candidates@.take(i as int));
        }
        if read_online_flag(tree, root, cpu, notes) {
            online.push(cpu);
        }
        i += 1;
        assert(views(notes@) =~= views(old(notes)@) + flag_notes(
            tree@,
            root@,
            candidates@.take(i as int),
        ));
    }
    assert(candidates@.take(candidates@.len() as int) =~= candidates@);
    notes.push(
        DetectionEvidence::new(
            EvidenceSource::OnlineCpuList,
            &online,
            format_cpu_list(&online),
            "The global online file was absent; active CPUs were resolved from present CPUs and per-CPU online flags.".to_owned(),
            EvidenceStrength::Strong,
            EvidenceKind::Observation,
        ),
    );
    Ok(online)
}

/// What is noted where the present list does not cover the online list.
pub open spec fn presence_notes(tree: FileTreeView, root: Seq<u8>, online: Seq<u32>) -> Seq<
    EvidenceView,
> {
    let (text, notes) = optional_text(tree, child(root, "present"@), Seq::empty());
    match text {
        None => notes,
        Some(contents) => match cpu_list(contents) {
            Ok(present) => {
                let outside = online.filter(member_is(present, false));
                if outside.len() == 0 {
                    notes
                } else {
                    notes + seq![
                        evidence(
                            EvidenceSource::OnlineCpuList,
                            outside,
                            trim(contents),
                            "The online list contains CPUs absent from the present list; the global online list remains authoritative."@,
                            EvidenceStrength::Strong,
                            EvidenceKind::Contradiction,
                        ),
                    ]
                }
            },
            Err(error) => notes + seq![
                evidence(
                    EvidenceSource::OnlineCpuList,
                    Seq::empty(),
                    trim(contents),
                    "The optional present CPU list is malformed: "@ + cpu_list_error_text(error)
                        + "."@,
                    EvidenceStrength::Moderate,
                    EvidenceKind::Warning,
                ),
            ],
        },
    }
}

fn inspect_present_consistency(
    tree: &FileTree,
    root: &UnixPath,
    online: &Vec<u32>,
    notes: &mut Vec<DetectionEvidence>,
)
    ensures
        views(final(notes)@) == views(old(notes)@) + presence_notes(tree@, root@, online@),
{
    let none: Vec<u32> = Vec::new();
    let contents = match read_optional_text(tree, &root.join("present"), notes, &none) {
        None => {
            return;
        },
        Some(contents) => contents,
    };
    match parse_cpu_list(contents.as_str()) {
        Ok(present) => {
            let outside = select_cpus(online, &present, false);
            if outside.len() > 0 {
                note(
                    notes,
                    EvidenceSource::OnlineCpuList,
                    &outside,
                    trim_text(contents.as_str()).to_owned(),
                    "The online list contains CPUs absent from the present list; the global online list remains authoritative.".to_owned(),
                    EvidenceStrength::Strong,
                    EvidenceKind::Contradiction,
                );
            }
        },
        Err(error) => {
            note(
                notes,
                EvidenceSource::OnlineCpuList,
                &none,
                trim_text(contents.as_str()).to_owned(),
                "The optional present CPU list is malformed: ".to_owned().concat(
                    error.message().as_str(),
                ).concat("."),
                EvidenceStrength::Moderate,
                EvidenceKind::Warning,
            );
        },
    }
}

/// The online CPUs, and what is noted in finding them.
pub open spec fn online_cpus(tree: FileTreeView, root: Seq<u8>) -> Result<
    (Seq<u32>, Seq<EvidenceView>),
    DetectorErrorView,
> {
    let path = child(root, "online"@);
    match tree.read(path) {
        FileReadView::Contents(contents) => match cpu_list(contents) {
            Ok(cpus) => Ok(
                (
                    cpus,
                    seq![
                        evidence(
                            EvidenceSource::OnlineCpuList,
                            cpus,
                            trim(contents),
                            "The global online CPU list selected "@ + decimal(cpus.len())
                                + " active logical CPUs."@,
                            EvidenceStrength::Explicit,
                            EvidenceKind::Observation,
                        ),
                    ] + presence_notes(tree, root, cpus),
                ),
            ),
            Err(source) => Err(DetectorErrorView::MalformedRequiredCpuList { path, source }),
        },
        FileReadView::Missing => online_without_global(tree, root),
        FileReadView::Failed(source) => Err(DetectorErrorView::RequiredFileRead { path, source }),
    }
}

fn resolve_online_cpus(
    tree: &FileTree,
    root: &UnixPath,
    notes: &mut Vec<DetectionEvidence>,
) -> (out: Result<Vec<u32>, DetectorError>)
    ensures
        match out {
            Ok(cpus) => {
                let expected = online_cpus(tree@, root@);
                &&& expected is Ok
                &&& cpus@ == expected->Ok_0.0
                &&& ascending(cpus@)
                &&& views(final(notes)@) == views(old(notes)@) + expected->Ok_0.1
            },
            Err(e) => online_cpus(tree@, root@) == Err::<
                (Seq<u32>, Seq<EvidenceView>),
                DetectorErrorView,
            >(e@),
        },
{
    let path = root.join("online");
    match tree.read(&path) {
        FileRead::Contents(contents) => match parse_cpu_list(contents.as_str()) {
            Ok(cpus) => {
                note(
                    notes,
                    EvidenceSource::OnlineCpuList,
                    &cpus,
                    trim_text(contents.as_str()).to_owned(),
                    "The global online CPU list selected ".to_owned().concat(
                        decimal_text(cpus.len() as u64).as_str(),
                    ).concat(" active logical CPUs."),
                    EvidenceStrength::Explicit,
                    EvidenceKind::Observation,
                );
                inspect_present_consistency(tree, root, &cpus, notes);
                Ok(cpus)
            },
            Err(source) => Err(DetectorError::MalformedRequiredCpuList { path, source }),
        },
        FileRead::Missing => resolve_online_without_global(tree, root, notes),
        FileRead::Failed(source) => Err(DetectorError::RequiredFileRead { path, source }),
    }
}

/// The whole snapshot of a CPU directory, or why there is none.
pub open spec fn sysfs_snapshot(status: RootStatus, tree: FileTreeView, root: Seq<u8>) -> Result<
    SysfsSnapshotView,
    DetectorErrorView,
> {
    match status {
        RootStatus::NotDirectory => Err(
            DetectorErrorView::SysfsRootUnavailable {
                path: root,
                source: "path is not a directory"@,
            },
        ),
        RootStatus::Failed(message) => Err(
            DetectorErrorView::SysfsRootUnavailable { path: root, source: message@ },
        ),
        RootStatus::Directory => match online_cpus(tree, root) {
            Err(e) => Err(e),
            Ok((online, notes)) => if online.len() == 0 {
                Err(DetectorErrorView::NoCpus { path: root })
            } else {
                Ok(
                    SysfsSnapshotView {
                        online_cpus: online,
                        records: online.map_values(
                            |cpu: u32| cpu_record(tree, root, cpu, online),
                        ),
                        evidence: notes,
                    },
                )
            },
        },
    }
}

impl SysfsCpuSource {
    /// A reader of the given root.
    pub fn new(root: UnixPath) -> (out: Self)
        ensures
            out.root == root,
    {
        SysfsCpuSource { root }
    }

    fn validate_root(&self, status: &RootStatus) -> (out: Result<(), DetectorError>)
        ensures
            out is Ok <==> *status is Directory,
            out matches Err(e) ==> sysfs_snapshot(*status, arbitrary(), self.root@) == Err::<
                SysfsSnapshotView,
                DetectorErrorView,
            >(e@),
    {
        match status {
            RootStatus::Directory => Ok(()),
            RootStatus::NotDirectory => Err(
                DetectorError::SysfsRootUnavailable {
                    path: self.root.clone(),
                    source: "path is not a directory".to_owned(),
                },
            ),
            RootStatus::Failed(message) => Err(
                DetectorError::SysfsRootUnavailable {
                    path: self.root.clone(),
                    source: message.clone(),
                },
            ),
        }
    }

    /// Collect what the files below the root say of every online CPU.
    pub fn collect(&self, status: &RootStatus, tree: &FileTree) -> (out: Result<
        SysfsSnapshot,
        DetectorError,
    >)
        ensures
            match out {
                Ok(snapshot) => sysfs_snapshot(*status, tree@, self.root@) == Ok::<
                    SysfsSnapshotView,
                    DetectorErrorView,
                >(snapshot@) && snapshot@.well_formed(),
                Err(e) => sysfs_snapshot(*status, tree@, self.root@) == Err::<
                    SysfsSnapshotView,
                    DetectorErrorView,
                >(e@),
            },
    {
        broadcast use group_views;

        match self.validate_root(status) {
            Ok(_) => {},
            Err(e) => {
                return Err(e);
            },
        }
        let mut notes: Vec<DetectionEvidence> = Vec::new();
        let online = match resolve_online_cpus(tree, &self.root, &mut notes) {
            Ok(online) => online,
            Err(e) => {
                return Err(e);
            },
        };
        if online.len() == 0 {
            return Err(DetectorError::NoCpus { path: self.root.clone() });
        }
        let ghost root = self.root@;
        let ghost record = |cpu: u32| cpu_record(tree@, root, cpu, online@);
        let mut records: Vec<CpuRecord> = Vec::new();
        let mut i: usize = 0;
        while i < online.len()
            invariant
                i <= online@.len(),
                root == self.root@,
                record == (|cpu: u32| cpu_record(tree@, root, cpu, online@)),
                views(records@) == online@.take(i as int).map_values(record),
                records@.len() == i,
                forall|k: int| 0 <= k < i ==> (#[trigger] records@[k]).id == online@[k],
            decreases online.len() - i,
        {
            let ghost done = online@.take(i as int);
            proof {
                assert(online@.take(i + 1) =~= done.push(online@[i as int]));
                done.lemma_push_map_commute(record, online@[i as int]);
            }
            records.push(collect_cpu(tree, &self.root, online[i], &online));
            i += 1;
        }
        assert(online@.take(online@.len() as int) =~= online@);
        let out = SysfsSnapshot { online_cpus: online, records, evidence: notes };
        assert forall|k: int| 0 <= k < out@.records.len() implies (#[trigger] out@.records[k]).id
            == out@.online_cpus[k] by {
            assert(out@.records[k] == records@[k]@);
        }
        assert(out@.evidence =~= online_cpus(tree@, root)->Ok_0.1);
        Ok(out)
    }
}

} // verus!
