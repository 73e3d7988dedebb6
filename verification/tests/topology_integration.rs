use ecore_launcher::float::{Double, Single};
use ecore_launcher::path::{FileRead, FileTree, Listing, ListingEntry, TreeDirectory, TreeFile};
use ecore_launcher::topology::detector::{
    clamp_confidence, strongest_frequency_split, DetectorPolicy,
};
use ecore_launcher::topology::observed::{
    cache_directory, cpu_files, find_observed_cpus, index_files, list_indexes, root_files,
};
use ecore_launcher::topology::sysfs::RootStatus;
use ecore_launcher::{
    CoreClass, CpuTopology, CpuTopologyDetector, DetectorError, EvidenceKind, EvidenceSource,
    TopologyClass, UnixPath,
};

type CoreSummary = (Option<u32>, Option<u32>, Vec<u32>, CoreClass);

fn single(value: f32) -> Single {
    Single {
        bits: value.to_bits(),
    }
}

fn double(value: f64) -> Double {
    Double {
        bits: value.to_bits(),
    }
}

fn number(value: Single) -> f32 {
    f32::from_bits(value.bits)
}

fn root() -> UnixPath {
    UnixPath::from_text("/fixtures/sysfs")
}

fn add(tree: &mut FileTree, path: &str, contents: &str) {
    tree.files.push(TreeFile {
        path: root().join(path),
        read: FileRead::Contents(contents.to_owned()),
    });
}

/// One logical CPU of a fixture.
struct Cpu {
    id: u32,
    core: u32,
    siblings: &'static str,
    core_type: Option<&'static str>,
    frequency: Option<&'static str>,
    cache: Option<(&'static str, &'static str)>,
}

fn fixture_of(online: &str, present: &str, cpus: &[Cpu]) -> FileTree {
    let mut tree = FileTree::new();
    add(&mut tree, "online", online);
    add(&mut tree, "present", present);
    for cpu in cpus {
        let base = format!("cpu{}", cpu.id);
        add(&mut tree, &format!("{base}/topology/physical_package_id"), "0\n");
        add(
            &mut tree,
            &format!("{base}/topology/core_id"),
            &format!("{}\n", cpu.core),
        );
        add(
            &mut tree,
            &format!("{base}/topology/thread_siblings_list"),
            cpu.siblings,
        );
        if let Some(core_type) = cpu.core_type {
            add(&mut tree, &format!("{base}/topology/core_type"), core_type);
        }
        if let Some(frequency) = cpu.frequency {
            add(
                &mut tree,
                &format!("{base}/cpufreq/cpuinfo_max_freq"),
                frequency,
            );
        }
        if let Some((size, shared)) = cpu.cache {
            tree.directories.push(TreeDirectory {
                path: root().join(&format!("{base}/cache")),
                listing: Listing::Entries(vec![ListingEntry::Name(UnixPath::from_text("index0"))]),
            });
            let index = format!("{base}/cache/index0");
            add(&mut tree, &format!("{index}/level"), "2\n");
            add(&mut tree, &format!("{index}/type"), "Unified\n");
            add(&mut tree, &format!("{index}/size"), size);
            add(&mut tree, &format!("{index}/shared_cpu_list"), shared);
        }
    }
    tree
}

fn plain(id: u32, core: u32, siblings: &'static str, frequency: Option<&'static str>) -> Cpu {
    Cpu {
        id,
        core,
        siblings,
        core_type: None,
        frequency,
        cache: None,
    }
}

fn hybrid(id: u32, core: u32, siblings: &'static str, fast: bool) -> Cpu {
    Cpu {
        id,
        core,
        siblings,
        core_type: Some(if fast { "64\n" } else { "32\n" }),
        frequency: Some(if fast { "5000000\n" } else { "3800000\n" }),
        cache: Some(if fast { ("1280K\n", siblings) } else { ("2048K\n", "1,3,5,7") }),
    }
}

fn fixture(name: &str) -> FileTree {
    match name {
        "intel-hybrid" => fixture_of(
            "0-7\n",
            "0-7\n",
            &[
                hybrid(0, 0, "0,4", true),
                hybrid(1, 2, "1", false),
                hybrid(2, 1, "2,6", true),
                hybrid(3, 3, "3", false),
                hybrid(4, 0, "0,4", true),
                hybrid(5, 4, "5", false),
                hybrid(6, 1, "2,6", true),
                hybrid(7, 5, "7", false),
            ],
        ),
        "intel-uniform" => fixture_of(
            "0-3\n",
            "0-3\n",
            &[
                plain(0, 0, "0,2", Some("4000000\n")),
                plain(1, 1, "1,3", Some("4000000\n")),
                plain(2, 0, "0,2", Some("4000000\n")),
                plain(3, 1, "1,3", Some("4000000\n")),
            ],
        ),
        "amd-uniform" => fixture_of(
            "0-3\n",
            "0-3\n",
            &[
                plain(0, 0, "0", Some("4600000\n")),
                plain(1, 1, "1", Some("4650000\n")),
                plain(2, 2, "2", Some("4700000\n")),
                plain(3, 3, "3", Some("4900000\n")),
            ],
        ),
        "heuristic-hybrid" => fixture_of(
            "0-7\n",
            "0-7\n",
            &[
                plain(0, 0, "0,4", Some("5000000\n")),
                plain(1, 2, "1", Some("3600000\n")),
                plain(2, 1, "2,6", Some("5100000\n")),
                plain(3, 3, "3", Some("3600000\n")),
                plain(4, 0, "0,4", Some("5000000\n")),
                plain(5, 4, "5", Some("3700000\n")),
                plain(6, 1, "2,6", Some("5100000\n")),
                plain(7, 5, "7", Some("3700000\n")),
            ],
        ),
        "missing-cpufreq" => fixture_of(
            "0-1\n",
            "0-1\n",
            &[plain(0, 0, "0", None), plain(1, 1, "1", None)],
        ),
        "malformed-optional" => {
            let mut tree = fixture_of(
                "0-2\n",
                "0-2\n",
                &[
                    Cpu {
                        core_type: Some("7\n"),
                        ..plain(0, 0, "0-\n", Some("fast\n"))
                    },
                    plain(1, 1, "2", Some("0\n")),
                ],
            );
            add(&mut tree, "cpu2/topology/physical_package_id", "zero\n");
            add(&mut tree, "cpu2/topology/core_id", "-2\n");
            tree
        }
        "offline-cpu" => fixture_of(
            "0-2\n",
            "0-3\n",
            &[
                plain(0, 0, "0", None),
                plain(1, 1, "1", None),
                plain(2, 2, "2-3", None),
                plain(3, 2, "2-3", None),
            ],
        ),
        "per-cpu-online" => {
            let mut tree = fixture_of(
                "unused",
                "0-2\n",
                &[plain(0, 0, "0", None), plain(1, 1, "1", None)],
            );
            tree.files.remove(0);
            add(&mut tree, "cpu1/online", "1\n");
            add(&mut tree, "cpu2/online", "0\n");
            tree
        }
        "ambiguous" => fixture_of(
            "0-6\n",
            "0-6\n",
            &[
                plain(0, 0, "0,4", Some("5000000\n")),
                plain(4, 0, "0,4", Some("5000000\n")),
                plain(1, 1, "1,5", Some("5000000\n")),
                plain(5, 1, "1,5", Some("5000000\n")),
                plain(2, 2, "2,6", Some("3500000\n")),
                plain(6, 2, "2,6", Some("3500000\n")),
                plain(3, 3, "3", Some("3500000\n")),
            ],
        ),
        "malformed-online" => fixture_of("0-\n", "0\n", &[plain(0, 0, "0", None)]),
        _ => panic!("unknown fixture {name}"),
    }
}

fn detect(name: &str) -> CpuTopology {
    CpuTopologyDetector::new(root())
        .detect(&RootStatus::Directory, &fixture(name))
        .unwrap_or_else(|error| {
            panic!("fixture {name} should detect successfully: {}", error.message())
        })
}

#[test]
fn intel_hybrid_uses_explicit_metadata_not_cpu_numbering() {
    let topology = detect("intel-hybrid");

    assert_eq!(topology.classification, TopologyClass::Hybrid);
    assert_eq!(topology.online_cpus, (0..=7).collect::<Vec<_>>());
    assert_eq!(topology.performance_cpus, vec![0, 2, 4, 6]);
    assert_eq!(topology.efficiency_cpus, vec![1, 3, 5, 7]);
    assert!(number(topology.confidence) > 0.95);
    assert!(topology.evidence.iter().any(|item| {
        item.source == EvidenceSource::CoreType
            && item.kind == EvidenceKind::Classification
            && item.affected_cpus == vec![1, 3, 5, 7]
    }));
    assert!(topology.evidence.iter().any(|item| {
        item.source == EvidenceSource::CacheTopology
            && item.observed_value == "2 complete cache-layout pattern(s)"
    }));
}

#[test]
fn physical_cores_are_grouped_and_ordered_by_topology_metadata() {
    let topology = detect("intel-hybrid");
    let groups: Vec<CoreSummary> = topology
        .physical_cores
        .iter()
        .map(|core| {
            (
                core.package_id,
                core.core_id,
                core.logical_cpus.clone(),
                core.core_class,
            )
        })
        .collect();

    assert_eq!(
        groups,
        vec![
            (Some(0), Some(0), vec![0, 4], CoreClass::Performance),
            (Some(0), Some(1), vec![2, 6], CoreClass::Performance),
            (Some(0), Some(2), vec![1], CoreClass::Efficiency),
            (Some(0), Some(3), vec![3], CoreClass::Efficiency),
            (Some(0), Some(4), vec![5], CoreClass::Efficiency),
            (Some(0), Some(5), vec![7], CoreClass::Efficiency),
        ]
    );
}

#[test]
fn non_hybrid_intel_is_uniform_without_efficiency_mask() {
    let topology = detect("intel-uniform");

    assert_eq!(topology.classification, TopologyClass::Uniform);
    assert!(topology.performance_cpus.is_empty());
    assert!(topology.efficiency_cpus.is_empty());
    assert!(topology
        .physical_cores
        .iter()
        .all(|core| core.core_class == CoreClass::Uniform));
}

#[test]
fn ordinary_amd_frequency_variation_is_not_called_hybrid() {
    let topology = detect("amd-uniform");

    assert_eq!(topology.classification, TopologyClass::Uniform);
    assert!(topology.performance_cpus.is_empty());
    assert!(topology.efficiency_cpus.is_empty());
}

#[test]
fn repeated_frequency_and_smt_clusters_can_form_a_low_confidence_hybrid_result() {
    let topology = detect("heuristic-hybrid");

    assert_eq!(topology.classification, TopologyClass::Hybrid);
    assert_eq!(topology.performance_cpus, vec![0, 2, 4, 6]);
    assert_eq!(topology.efficiency_cpus, vec![1, 3, 5, 7]);
    assert!(number(topology.confidence) < number(detect("intel-hybrid").confidence));
    assert!(topology.evidence.iter().any(|item| {
        item.source == EvidenceSource::MaximumFrequency
            && item.kind == EvidenceKind::Classification
            && item.interpretation.contains("remains heuristic")
    }));
}

/// Two slow cores with one thread and two fast cores with two.
fn clusters(slow: [&'static str; 2], fast: [&'static str; 2]) -> FileTree {
    fixture_of(
        "0-5\n",
        "0-5\n",
        &[
            plain(0, 0, "0,4", Some(fast[0])),
            plain(1, 1, "1", Some(slow[0])),
            plain(2, 2, "2,5", Some(fast[1])),
            plain(3, 3, "3", Some(slow[1])),
            plain(4, 0, "0,4", Some(fast[0])),
            plain(5, 2, "2,5", Some(fast[1])),
        ],
    )
}

fn class_of(tree: &FileTree) -> TopologyClass {
    CpuTopologyDetector::new(root())
        .detect(&RootStatus::Directory, tree)
        .unwrap_or_else(|error| panic!("detect: {}", error.message()))
        .classification
}

#[test]
fn frequency_clusters_count_only_when_they_are_far_apart_and_tight() {
    let slow = ["4000000\n", "4000000\n"];
    let exact = clusters(slow, ["5000000\n", "5000000\n"]);
    assert_eq!(class_of(&exact), TopologyClass::Hybrid);
    let close = clusters(slow, ["4999999\n", "4999999\n"]);
    assert_ne!(class_of(&close), TopologyClass::Hybrid);
    let tight = clusters(["3680000\n", "4000000\n"], ["5000000\n", "5000000\n"]);
    assert_eq!(class_of(&tight), TopologyClass::Hybrid);
    let wide = clusters(["3679999\n", "4000000\n"], ["5000000\n", "5000000\n"]);
    assert_ne!(class_of(&wide), TopologyClass::Hybrid);
}

#[test]
fn frequencies_alone_are_no_corroboration() {
    let threads_alike = fixture_of(
        "0-3\n",
        "0-3\n",
        &[
            plain(0, 0, "0", Some("5000000\n")),
            plain(1, 1, "1", Some("3000000\n")),
            plain(2, 2, "2", Some("5000000\n")),
            plain(3, 3, "3", Some("3000000\n")),
        ],
    );
    assert_ne!(class_of(&threads_alike), TopologyClass::Hybrid);
    let single_core = fixture_of(
        "0-4\n",
        "0-4\n",
        &[
            plain(0, 0, "0,1", Some("5000000\n")),
            plain(1, 0, "0,1", Some("5000000\n")),
            plain(2, 2, "2", Some("3000000\n")),
            plain(3, 3, "3", Some("3000000\n")),
            plain(4, 4, "4", Some("3000000\n")),
        ],
    );
    assert_ne!(class_of(&single_core), TopologyClass::Hybrid);
}

#[test]
fn missing_cpufreq_is_optional() {
    let topology = detect("missing-cpufreq");

    assert_eq!(topology.classification, TopologyClass::Uniform);
    assert_eq!(topology.physical_cores.len(), 2);
    assert!(topology.efficiency_cpus.is_empty());
}

#[test]
fn malformed_optional_metadata_becomes_evidence() {
    let topology = detect("malformed-optional");

    assert_eq!(topology.online_cpus, vec![0, 1, 2]);
    assert_eq!(topology.classification, TopologyClass::Unknown);
    assert!(topology.efficiency_cpus.is_empty());
    assert!(
        topology
            .evidence
            .iter()
            .filter(|item| matches!(
                item.kind,
                EvidenceKind::Warning | EvidenceKind::Contradiction
            ))
            .count()
            >= 4
    );
    assert!(topology.evidence.iter().any(|item| {
        item.source == EvidenceSource::CoreType
            && item.interpretation.contains("unsupported core_type")
    }));
}

#[test]
fn offline_present_cpu_is_excluded_everywhere() {
    let topology = detect("offline-cpu");

    assert_eq!(topology.online_cpus, vec![0, 1, 2]);
    assert!(topology
        .physical_cores
        .iter()
        .flat_map(|core| &core.logical_cpus)
        .all(|cpu| *cpu != 3));
    assert!(!topology.performance_cpus.contains(&3));
    assert!(!topology.efficiency_cpus.contains(&3));
}

#[test]
fn missing_global_online_uses_per_cpu_flags_and_accepts_cpu0_without_one() {
    let topology = detect("per-cpu-online");

    assert_eq!(topology.online_cpus, vec![0, 1]);
    assert!(topology.evidence.iter().any(|item| {
        item.source == EvidenceSource::PerCpuOnline
            && item.affected_cpus == vec![0]
            && item.observed_value == "missing"
    }));
    assert!(topology.evidence.iter().any(|item| {
        item.source == EvidenceSource::PerCpuOnline
            && item.affected_cpus == vec![2]
            && item.observed_value == "0"
    }));
}

#[test]
fn conflicting_heuristic_signals_produce_unknown() {
    let topology = detect("ambiguous");

    assert_eq!(topology.classification, TopologyClass::Unknown);
    assert!(topology.performance_cpus.is_empty());
    assert!(topology.efficiency_cpus.is_empty());
    assert!(topology.evidence.iter().any(|item| {
        item.source == EvidenceSource::MaximumFrequency && item.kind == EvidenceKind::Contradiction
    }));
}

#[test]
fn output_ordering_and_evidence_are_deterministic() {
    let first = detect("intel-hybrid");
    let second = detect("intel-hybrid");

    assert_eq!(first, second);
    assert!(first.online_cpus.windows(2).all(|pair| pair[0] < pair[1]));
    assert!(first
        .performance_cpus
        .windows(2)
        .all(|pair| pair[0] < pair[1]));
    assert!(first
        .efficiency_cpus
        .windows(2)
        .all(|pair| pair[0] < pair[1]));
    assert!(first
        .physical_cores
        .iter()
        .all(|core| core.logical_cpus.windows(2).all(|pair| pair[0] < pair[1])));
}

#[test]
fn confidence_values_are_bounded() {
    for name in [
        "intel-hybrid",
        "intel-uniform",
        "amd-uniform",
        "heuristic-hybrid",
        "missing-cpufreq",
        "malformed-optional",
        "offline-cpu",
        "ambiguous",
    ] {
        let topology = detect(name);
        assert!((0.0..=1.0).contains(&number(topology.confidence)), "{name}");
        assert!(
            topology
                .physical_cores
                .iter()
                .all(|core| (0.0..=1.0).contains(&number(core.confidence))),
            "{name}"
        );
    }
}

#[test]
fn malformed_required_online_list_is_fatal() {
    let error = CpuTopologyDetector::new(root())
        .detect(&RootStatus::Directory, &fixture("malformed-online"))
        .expect_err("malformed global online list must be fatal");

    assert!(matches!(
        error,
        DetectorError::MalformedRequiredCpuList { .. }
    ));
}

#[test]
fn missing_sysfs_root_is_fatal() {
    let error = CpuTopologyDetector::new(root())
        .detect(
            &RootStatus::Failed("No such file or directory (os error 2)".to_owned()),
            &FileTree::new(),
        )
        .expect_err("missing root must be fatal");

    assert!(matches!(error, DetectorError::SysfsRootUnavailable { .. }));
}

#[test]
fn confidence_is_always_bounded() {
    assert_eq!(number(clamp_confidence(single(-1.0))), 0.0);
    assert_eq!(number(clamp_confidence(single(0.5))), 0.5);
    assert_eq!(number(clamp_confidence(single(2.0))), 1.0);
    assert_eq!(number(clamp_confidence(single(f32::NAN))), 0.0);
}

#[test]
fn custom_policy_cannot_weaken_conservative_safeguards() {
    let policy = DetectorPolicy {
        minimum_frequency_ratio: double(f64::NAN),
        maximum_cluster_spread: double(0.5),
        minimum_cores_per_cluster: 1,
        explicit_hybrid_confidence: single(0.4),
        heuristic_hybrid_confidence: single(0.9),
    }
    .conservative();

    assert!(f64::from_bits(policy.minimum_frequency_ratio.bits) >= 1.25);
    assert!(f64::from_bits(policy.maximum_cluster_spread.bits) <= 0.08);
    assert!(policy.minimum_cores_per_cluster >= 2);
    assert!(
        number(policy.heuristic_hybrid_confidence) < number(policy.explicit_hybrid_confidence)
    );
}

#[test]
fn heuristic_confidence_stays_one_epsilon_below_the_explicit_one() {
    for explicit in [0.4_f32, 0.98, 1.0, 0.25, 0.1, 1e-3, 1e-7, 1e-8, 0.0, 7.0, -1.0] {
        let bounded = explicit.clamp(0.0, 1.0);
        let policy = DetectorPolicy {
            explicit_hybrid_confidence: single(explicit),
            heuristic_hybrid_confidence: single(0.99),
            ..DetectorPolicy::default()
        }
        .conservative();
        assert_eq!(number(policy.explicit_hybrid_confidence), bounded);
        assert_eq!(
            number(policy.heuristic_hybrid_confidence),
            0.99_f32.min((bounded - f32::EPSILON).max(0.0)),
            "{explicit}"
        );
    }
}

#[test]
fn stricter_policies_are_kept() {
    let policy = DetectorPolicy {
        minimum_frequency_ratio: double(1.5),
        maximum_cluster_spread: double(0.01),
        minimum_cores_per_cluster: 3,
        explicit_hybrid_confidence: single(0.9),
        heuristic_hybrid_confidence: single(0.2),
    };
    assert_eq!(policy.conservative(), policy);
    assert_eq!(DetectorPolicy::default().conservative(), DetectorPolicy::default());
    let loose = DetectorPolicy {
        minimum_frequency_ratio: double(f64::INFINITY),
        maximum_cluster_spread: double(-0.5),
        ..DetectorPolicy::default()
    }
    .conservative();
    assert_eq!(loose.minimum_frequency_ratio, double(1.25));
    assert_eq!(loose.maximum_cluster_spread, double(0.0));
}

fn two_clusters(low: &'static str, high: &'static str) -> CpuTopology {
    CpuTopologyDetector::new(root())
        .detect(&RootStatus::Directory, &clusters([low, low], [high, high]))
        .unwrap_or_else(|error| panic!("detect: {}", error.message()))
}

fn observed_ratio(topology: &CpuTopology) -> Option<String> {
    topology
        .evidence
        .iter()
        .find(|item| item.kind == EvidenceKind::Classification)
        .map(|item| item.observed_value.clone())
        .filter(|value| value.starts_with("frequency ratio"))
}

#[test]
fn frequency_ratios_are_divided_and_shown_as_floating_point_numbers() {
    let pairs: [(&str, &str, u64, u64); 8] = [
        ("2000\n", "2501\n", 2000, 2501),
        ("2000\n", "2503\n", 2000, 2503),
        ("2000\n", "2505\n", 2000, 2505),
        ("2000\n", "2507\n", 2000, 2507),
        ("1600\n", "2001\n", 1600, 2001),
        ("16\n", "21\n", 16, 21),
        ("3\n", "7\n", 3, 7),
        ("2000000\n", "4253000\n", 2_000_000, 4_253_000),
    ];
    for (low, high, slow, fast) in pairs {
        let topology = two_clusters(low, high);
        assert_eq!(topology.classification, TopologyClass::Hybrid);
        let ratio = fast as f64 / slow as f64;
        let shown = format!(
            "frequency ratio {ratio:.3}; SMT widths low=1, high=2; cache patterns=unavailable"
        );
        assert_eq!(observed_ratio(&topology), Some(shown));
    }
}

#[test]
fn thresholds_are_compared_as_floating_point_numbers() {
    assert_eq!(
        two_clusters("4000000\n", "5000000\n").classification,
        TopologyClass::Hybrid
    );
    assert_ne!(
        two_clusters("4000000\n", "4999999\n").classification,
        TopologyClass::Hybrid
    );
    let wide = two_clusters("4000000000000000000\n", "4999999999999999999\n");
    assert_eq!(4_999_999_999_999_999_999_u64 as f64 / 4e18, 1.25);
    assert_eq!(wide.classification, TopologyClass::Hybrid);
    assert!(observed_ratio(&wide).is_some_and(|value| value.contains("ratio 1.250;")));
}

#[test]
fn every_online_cpu_is_on_exactly_one_physical_core() {
    for name in ["intel-hybrid", "heuristic-hybrid", "offline-cpu", "malformed-optional"] {
        let topology = detect(name);
        let mut cpus: Vec<u32> = topology
            .physical_cores
            .iter()
            .flat_map(|core| core.logical_cpus.clone())
            .collect();
        cpus.sort();
        assert_eq!(cpus, topology.online_cpus, "{name}");
        assert!(topology
            .physical_cores
            .iter()
            .all(|core| !core.logical_cpus.is_empty()));
    }
}

#[test]
fn strongest_split_is_the_last_of_the_largest_steps() {
    assert_eq!(strongest_frequency_split(&vec![100, 110, 200, 210]), Some(2));
    assert_eq!(strongest_frequency_split(&vec![100, 200, 400]), Some(2));
    assert_eq!(strongest_frequency_split(&vec![100]), None);
    assert_eq!(strongest_frequency_split(&vec![]), None);
}

#[test]
fn classification_messages_name_what_was_observed() {
    let uniform = detect("intel-uniform");
    assert_eq!(uniform.confidence, single(0.82));
    assert!(uniform.evidence.iter().any(|item| {
        item.source == EvidenceSource::Classifier
            && item.observed_value == "2 physical cores; SMT widths {2}"
    }));
    let heuristic = detect("heuristic-hybrid");
    assert!(heuristic.evidence.iter().any(|item| {
        item.observed_value
            == "frequency ratio 1.351; SMT widths low=1, high=2; cache patterns=unavailable"
    }));
    let ambiguous = detect("ambiguous");
    assert!(ambiguous
        .evidence
        .iter()
        .any(|item| item.observed_value == "low SMT widths {1, 2}; high SMT widths {2}"));
}

#[test]
fn differing_caches_in_one_core_are_reported_in_quotes() {
    let tree = fixture_of(
        "0-1\n",
        "0-1\n",
        &[
            Cpu {
                cache: Some(("1280K\n", "0-1")),
                ..plain(0, 0, "0-1", None)
            },
            Cpu {
                cache: Some(("2048K\n", "0-1")),
                ..plain(1, 0, "0-1", None)
            },
        ],
    );
    let topology = CpuTopologyDetector::new(root())
        .detect(&RootStatus::Directory, &tree)
        .unwrap_or_else(|error| panic!("detect: {}", error.message()));
    assert!(topology.physical_cores[0].evidence.iter().any(|item| {
        item.kind == EvidenceKind::Contradiction
            && item.observed_value
                == "[\"L2:Unified:1280K:shared=2\", \"L2:Unified:2048K:shared=2\"]"
    }));
}

#[test]
fn roots_without_processors_are_rejected() {
    let mut tree = FileTree::new();
    tree.directories.push(TreeDirectory {
        path: root(),
        listing: Listing::Entries(vec![ListingEntry::Name(UnixPath::from_text("cpufreq"))]),
    });
    assert_eq!(
        CpuTopologyDetector::new(root()).detect(&RootStatus::Directory, &tree),
        Err(DetectorError::NoCpus { path: root() })
    );
    assert!(matches!(
        CpuTopologyDetector::new(root()).detect(&RootStatus::NotDirectory, &tree),
        Err(DetectorError::SysfsRootUnavailable { .. })
    ));
    let mut denied = FileTree::new();
    denied.files.push(TreeFile {
        path: root().join("online"),
        read: FileRead::Failed("Permission denied (os error 13)".to_owned()),
    });
    assert!(matches!(
        CpuTopologyDetector::new(root()).detect(&RootStatus::Directory, &denied),
        Err(DetectorError::RequiredFileRead { .. })
    ));
}

/// What detection looks at in a tree, and nothing else.
fn observed(mut tree: FileTree) -> FileTree {
    let mut files = root_files(&root());
    let mut directories = vec![root()];
    for cpu in find_observed_cpus(&tree, &root()) {
        files.extend(cpu_files(&root(), cpu));
        let cache = cache_directory(&root(), cpu);
        if let Some(found) = tree.directories.iter().find(|item| item.path == cache) {
            for index in list_indexes(&cache, &found.listing) {
                files.extend(index_files(&index));
            }
        }
        directories.push(cache);
    }
    tree.files.retain(|item| files.contains(&item.path));
    tree.directories.retain(|item| directories.contains(&item.path));
    tree
}

#[test]
fn detection_looks_at_the_named_paths_only() {
    for name in [
        "intel-hybrid",
        "heuristic-hybrid",
        "malformed-optional",
        "offline-cpu",
        "per-cpu-online",
        "ambiguous",
    ] {
        let mut tree = fixture(name);
        add(&mut tree, "cpu0/topology/die_id", "7\n");
        add(&mut tree, "cpu99/topology/core_id", "7\n");
        let count = tree.files.len();
        let part = observed(tree);
        assert!(part.files.len() + 2 <= count, "{name}");
        let detector = CpuTopologyDetector::new(root());
        let again = detector
            .detect(&RootStatus::Directory, &part)
            .unwrap_or_else(|error| panic!("detect: {}", error.message()));
        assert_eq!(again, detect(name), "{name}");
    }
}

#[test]
fn observed_cpus_are_those_of_the_list_or_those_present() {
    assert_eq!(
        find_observed_cpus(&fixture("offline-cpu"), &root()),
        [0, 1, 2]
    );
    assert_eq!(
        find_observed_cpus(&fixture("per-cpu-online"), &root()),
        [0, 1, 2]
    );
    assert!(find_observed_cpus(&fixture("malformed-online"), &root()).is_empty());
    assert_eq!(cpu_files(&root(), 3)[2], root().join("cpu3/topology/core_id"));
    assert_eq!(root_files(&root()), [root().join("online"), root().join("present")]);
    let listing = Listing::Entries(vec![
        ListingEntry::Name(UnixPath::from_text("uevent")),
        ListingEntry::Name(UnixPath::from_text("index3")),
    ]);
    let cache = cache_directory(&root(), 3);
    let indexes = list_indexes(&cache, &listing);
    assert_eq!(indexes, [root().join("cpu3/cache/index3")]);
    assert_eq!(
        index_files(&indexes[0])[3],
        root().join("cpu3/cache/index3/shared_cpu_list")
    );
}
