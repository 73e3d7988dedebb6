//! Conservative classification of the physical cores.
use vstd::prelude::*;
use vstd::string::StringExecFns;

use super::evidence::{
    evidence, DetectionEvidence, EvidenceKind, EvidenceSource, EvidenceStrength, EvidenceView,
};
use super::grouping::{core_groups, group_physical_cores, GroupedCore, GroupedCoreView};
use super::parser::{cpu_list_text, format_cpu_list, CoreTypeInterpretation};
use super::sysfs::{
    note, sysfs_snapshot, RootStatus, SysfsCpuSource, SysfsSnapshot, SysfsSnapshotView,
};
use super::types::{
    core_class_text, CoreClass, CpuTopology, CpuTopologyView, DetectorError, DetectorErrorView,
    PhysicalCore, PhysicalCoreView, TopologyClass,
};
use crate::float::{
    divide, epsilon, less_epsilon, less_epsilon_is_exact, packed, quotient,
    single_order_is_bit_order, three_decimals, Double, Single, SINGLE_HIDDEN, SINGLE_ONE,
};
use crate::order::{sorted_set, sorted_unique, stable_sort, stable_sorted};
use crate::path::{FileTree, FileTreeView, UnixPath};
use crate::text::{decimal, decimal_text, group_views, join, join_text, same_text, views};

verus! {

/// Tunable, conservative thresholds used by heuristic classification.
#[derive(Clone, Copy, Debug, PartialEq, Eq)]
pub struct DetectorPolicy {
    /// Minimum high/low maximum-frequency ratio.
    pub minimum_frequency_ratio: Double,
    /// Maximum relative spread permitted inside either frequency cluster.
    pub maximum_cluster_spread: Double,
    /// Minimum physical cores required in each heuristic cluster.
    pub minimum_cores_per_cluster: usize,
    /// Confidence assigned to explicit hybrid metadata.
    pub explicit_hybrid_confidence: Single,
    /// Confidence assigned to a fully corroborated heuristic result.
    pub heuristic_hybrid_confidence: Single,
}

/// The least ratio between the frequencies of two clusters: the bits of 1.25.
pub const DEFAULT_FREQUENCY_RATIO: u64 = 0x3FF4_0000_0000_0000;

/// The largest relative spread within a cluster: the bits of 0.08.
pub const DEFAULT_CLUSTER_SPREAD: u64 = 0x3FB4_7AE1_47AE_147B;

/// The least number of physical cores in a cluster.
pub const DEFAULT_CORES_PER_CLUSTER: usize = 2;

/// The confidence in explicit hybrid metadata: the bits of 0.98.
pub const EXPLICIT_CONFIDENCE: u32 = 0x3F7A_E148;

/// The confidence in a corroborated heuristic result: the bits of 0.72.
pub const HEURISTIC_CONFIDENCE: u32 = 0x3F38_51EC;

/// The confidence in metadata that names one type: the bits of 0.95.
pub const SINGLE_TYPE_CONFIDENCE: u32 = 0x3F73_3333;

/// The confidence in a uniform grouping: the bits of 0.82.
pub const UNIFORM_CONFIDENCE: u32 = 0x3F51_EB85;

/// The confidence where nothing is certain: the bits of 0.25.
pub const UNKNOWN_CONFIDENCE: u32 = 0x3E80_0000;

pub open spec fn single(bits: u32) -> Single {
    Single { bits }
}

pub open spec fn double(bits: u64) -> Double {
    Double { bits }
}

pub open spec fn default_policy() -> DetectorPolicy {
    DetectorPolicy {
        minimum_frequency_ratio: double(DEFAULT_FREQUENCY_RATIO),
        maximum_cluster_spread: double(DEFAULT_CLUSTER_SPREAD),
        minimum_cores_per_cluster: DEFAULT_CORES_PER_CLUSTER,
        explicit_hybrid_confidence: single(EXPLICIT_CONFIDENCE),
        heuristic_hybrid_confidence: single(HEURISTIC_CONFIDENCE),
    }
}

impl Default for DetectorPolicy {
    fn default() -> (out: Self)
        ensures
            out == default_policy(),
    {
        DetectorPolicy {
            minimum_frequency_ratio: Double { bits: DEFAULT_FREQUENCY_RATIO },
            maximum_cluster_spread: Double { bits: DEFAULT_CLUSTER_SPREAD },
            minimum_cores_per_cluster: DEFAULT_CORES_PER_CLUSTER,
            explicit_hybrid_confidence: Single { bits: EXPLICIT_CONFIDENCE },
            heuristic_hybrid_confidence: Single { bits: HEURISTIC_CONFIDENCE },
        }
    }
}

/// A confidence between nothing and certainty; what is not a finite number
/// counts as none. A negative zero stays as it is.
pub open spec fn bounded_confidence(confidence: Single) -> Single {
    if !confidence.finite() {
        single(0)
    } else if confidence.negative() {
        if confidence.units() == 0 {
            confidence
        } else {
            single(0)
        }
    } else if confidence.units() > single(SINGLE_ONE).units() {
        single(SINGLE_ONE)
    } else {
        confidence
    }
}

/// Bound a confidence; what is not a finite number counts as none.
pub fn clamp_confidence(confidence: Single) -> (out: Single)
    ensures
        out == bounded_confidence(confidence),
{
    if !confidence.is_finite() {
        Single { bits: 0 }
    } else if confidence.is_negative() {
        if (Single { bits: 0 }).is_smaller(confidence) {
            Single { bits: 0 }
        } else {
            confidence
        }
    } else if (Single { bits: SINGLE_ONE }).is_smaller(confidence) {
        Single { bits: SINGLE_ONE }
    } else {
        confidence
    }
}

/// A bounded confidence lies between nothing and certainty.
pub proof fn bounded_confidence_is_bounded(confidence: Single)
    ensures
        is_bounded(bounded_confidence(confidence)),
        bounded_confidence(bounded_confidence(confidence)) == bounded_confidence(confidence),
{
    single_order_is_bit_order(confidence, single(SINGLE_ONE));
    single_order_is_bit_order(single(0), single(SINGLE_ONE));
}

/// A confidence that is no more than certainty, and not below nothing.
pub open spec fn is_bounded(confidence: Single) -> bool {
    &&& confidence.finite()
    &&& confidence.units() <= single(SINGLE_ONE).units()
    &&& confidence.negative() ==> confidence.units() == 0
}

/// The policy that a policy comes to: it can make detection stricter, and
/// never weaker than the defaults. The heuristic confidence stays an epsilon
/// below the explicit one.
pub open spec fn conservative_policy(policy: DetectorPolicy) -> DetectorPolicy {
    let ratio = policy.minimum_frequency_ratio;
    let spread = policy.maximum_cluster_spread;
    let explicit = bounded_confidence(policy.explicit_hybrid_confidence);
    let heuristic = bounded_confidence(policy.heuristic_hybrid_confidence);
    DetectorPolicy {
        minimum_frequency_ratio: if ratio.finite() && !ratio.negative() && ratio.units()
            > double(DEFAULT_FREQUENCY_RATIO).units() {
            ratio
        } else {
            double(DEFAULT_FREQUENCY_RATIO)
        },
        maximum_cluster_spread: if !spread.finite() {
            double(DEFAULT_CLUSTER_SPREAD)
        } else if spread.negative() && spread.units() > 0 {
            double(0)
        } else if spread.units() > double(DEFAULT_CLUSTER_SPREAD).units() {
            double(DEFAULT_CLUSTER_SPREAD)
        } else {
            spread
        },
        minimum_cores_per_cluster: if policy.minimum_cores_per_cluster
            > DEFAULT_CORES_PER_CLUSTER {
            policy.minimum_cores_per_cluster
        } else {
            DEFAULT_CORES_PER_CLUSTER
        },
        explicit_hybrid_confidence: explicit,
        heuristic_hybrid_confidence: if less_epsilon(explicit).units() < heuristic.units() {
            less_epsilon(explicit)
        } else {
            heuristic
        },
    }
}

impl DetectorPolicy {
    /// Normalize the policy so that it cannot weaken the built-in safeguards.
    pub fn conservative(self) -> (out: DetectorPolicy)
        ensures
            out == conservative_policy(self),
    {
        let ratio = self.minimum_frequency_ratio;
        let spread = self.maximum_cluster_spread;
        let explicit = clamp_confidence(self.explicit_hybrid_confidence);
        let heuristic = clamp_confidence(self.heuristic_hybrid_confidence);
        proof {
            bounded_confidence_is_bounded(self.explicit_hybrid_confidence);
            single_order_is_bit_order(explicit, single(SINGLE_ONE));
        }
        let below = explicit.minus_epsilon();
        let least = Double { bits: DEFAULT_FREQUENCY_RATIO };
        let widest = Double { bits: DEFAULT_CLUSTER_SPREAD };
        let nothing = Double { bits: 0 };
        assert(nothing.units() == 0);
        DetectorPolicy {
            minimum_frequency_ratio: if ratio.is_finite() && !ratio.is_negative()
                && least.is_smaller(ratio) {
                ratio
            } else {
                least
            },
            maximum_cluster_spread: if !spread.is_finite() {
                widest
            } else if spread.is_negative() && nothing.is_smaller(spread) {
                nothing
            } else if widest.is_smaller(spread) {
                widest
            } else {
                spread
            },
            minimum_cores_per_cluster: if self.minimum_cores_per_cluster
                > DEFAULT_CORES_PER_CLUSTER {
                self.minimum_cores_per_cluster
            } else {
                DEFAULT_CORES_PER_CLUSTER
            },
            explicit_hybrid_confidence: explicit,
            heuristic_hybrid_confidence: if below.is_smaller(heuristic) {
                below
            } else {
                heuristic
            },
        }
    }
}

/// A policy can be stricter than the defaults and never weaker, and ranks a
/// heuristic result below an explicit one.
pub proof fn policy_never_weakens(policy: DetectorPolicy)
    ensures
        ({
            let safe = conservative_policy(policy);
            &&& safe.minimum_frequency_ratio.units() >= double(DEFAULT_FREQUENCY_RATIO).units()
            &&& safe.maximum_cluster_spread.units() <= double(DEFAULT_CLUSTER_SPREAD).units()
            &&& safe.minimum_cores_per_cluster >= DEFAULT_CORES_PER_CLUSTER
            &&& is_bounded(safe.explicit_hybrid_confidence)
            &&& is_bounded(safe.heuristic_hybrid_confidence)
            &&& safe.heuristic_hybrid_confidence.units() <= safe.explicit_hybrid_confidence.units()
            &&& safe.explicit_hybrid_confidence.units() > 0
                ==> safe.heuristic_hybrid_confidence.units()
                < safe.explicit_hybrid_confidence.units()
        }),
{
    let explicit = bounded_confidence(policy.explicit_hybrid_confidence);
    bounded_confidence_is_bounded(policy.explicit_hybrid_confidence);
    bounded_confidence_is_bounded(policy.heuristic_hybrid_confidence);
    single_order_is_bit_order(explicit, single(SINGLE_ONE));
    single_order_is_bit_order(explicit, epsilon());
    single_order_is_bit_order(single(0), epsilon());
    assert(double(0).units() == 0);
    assert(single(0).units() == 0);
    if !explicit.negative() {
        less_epsilon_is_exact(explicit);
        single_order_is_bit_order(less_epsilon(explicit), single(SINGLE_ONE));
    }
}

/// The default policy is conservative already.
pub proof fn default_policy_is_conservative()
    ensures
        conservative_policy(default_policy()) == default_policy(),
{
    let explicit = single(EXPLICIT_CONFIDENCE);
    let heuristic = single(HEURISTIC_CONFIDENCE);
    single_order_is_bit_order(explicit, single(SINGLE_ONE));
    single_order_is_bit_order(heuristic, single(SINGLE_ONE));
    single_order_is_bit_order(heuristic, explicit);
    less_epsilon_is_exact(explicit);
    let below = less_epsilon(explicit);
    vstd::arithmetic::power2::lemma2_to64();
    assert(packed((0xFA_E148 - 2) as nat, 126) == 126 * SINGLE_HIDDEN + 0x7A_E146);
    assert(below == single(0x3F7A_E146));
    single_order_is_bit_order(heuristic, below);
}

/// The outcome of classification.
#[derive(Debug)]
pub struct Classification {
    pub classification: TopologyClass,
    pub confidence: Single,
    pub evidence: Vec<DetectionEvidence>,
}

/// A classification by its contents, with the cores as it leaves them.
pub struct ClassifiedView {
    pub cores: Seq<GroupedCoreView>,
    pub classification: TopologyClass,
    pub confidence: Single,
    pub evidence: Seq<EvidenceView>,
}

/// A core after classification.
pub open spec fn classified(core: GroupedCoreView, class: CoreClass, confidence: Single) -> GroupedCoreView {
    GroupedCoreView {
        output: PhysicalCoreView { core_class: class, confidence, ..core.output },
        ..core
    }
}

/// A core with a further observation.
pub open spec fn noted(core: GroupedCoreView, item: EvidenceView) -> GroupedCoreView {
    GroupedCoreView {
        output: PhysicalCoreView { evidence: core.output.evidence.push(item), ..core.output },
        ..core
    }
}

/// The CPUs of cores, core by core.
pub open spec fn flat_cpus(cores: Seq<GroupedCoreView>) -> Seq<u32>
    decreases cores.len(),
{
    if cores.len() == 0 {
        Seq::empty()
    } else {
        flat_cpus(cores.drop_last()) + cores.last().output.logical_cpus
    }
}

/// The CPUs of the cores of one class, core by core.
pub open spec fn class_cpus(cores: Seq<PhysicalCoreView>, class: CoreClass) -> Seq<u32>
    decreases cores.len(),
{
    if cores.len() == 0 {
        Seq::empty()
    } else {
        let front = class_cpus(cores.drop_last(), class);
        if cores.last().core_class == class {
            front + cores.last().logical_cpus
        } else {
            front
        }
    }
}

pub open spec fn outputs(cores: Seq<GroupedCoreView>) -> Seq<PhysicalCoreView> {
    cores.map_values(|core: GroupedCoreView| core.output)
}

fn extend_numbers(out: &mut Vec<u32>, more: &Vec<u32>)
    ensures
        final(out)@ == old(out)@ + more@,
{
    let mut i: usize = 0;
    assert(old(out)@ =~= old(out)@ + more@.take(0));
    while i < more.len()
        invariant
            i <= more@.len(),
            out@ == old(out)@ + more@.take(i as int),
        decreases more.len() - i,
    {
        out.push(more[i]);
        i += 1;
        assert(out@ =~= old(out)@ + more@.take(i as int));
    }
    assert(more@.take(more@.len() as int) =~= more@);
}

fn all_core_cpus(cores: &Vec<GroupedCore>) -> (out: Vec<u32>)
    ensures
        out@ == sorted_set(flat_cpus(views(cores@))),
{
    let ghost all = views(cores@);
    let mut cpus: Vec<u32> = Vec::new();
    let mut i: usize = 0;
    assert(all.take(0) =~= Seq::empty());
    while i < cores.len()
        invariant
            i <= cores@.len(),
            all == views(cores@),
            cpus@ == flat_cpus(all.take(i as int)),
        decreases cores.len() - i,
    {
        assert(all.take(i + 1).drop_last() =~= all.take(i as int));
        assert(all.take(i + 1).last() == cores@[i as int]@);
        extend_numbers(&mut cpus, &cores[i].output.logical_cpus);
        i += 1;
    }
    assert(all.take(all.len() as int) =~= all);
    sorted_unique(&cpus)
}

fn cpus_of_class(cores: &Vec<GroupedCore>, class: CoreClass) -> (out: Vec<u32>)
    ensures
        out@ == class_cpus(outputs(views(cores@)), class),
{
    let ghost all = outputs(views(cores@));
    let mut cpus: Vec<u32> = Vec::new();
    let mut i: usize = 0;
    assert(all.take(0) =~= Seq::empty());
    while i < cores.len()
        invariant
            i <= cores@.len(),
            all == outputs(views(cores@)),
            cpus@ == class_cpus(all.take(i as int), class),
        decreases cores.len() - i,
    {
        assert(all.take(i + 1).drop_last() =~= all.take(i as int));
        assert(all.take(i + 1).last() == cores@[i as int].output@);
        if cores[i].output.core_class == class {
            extend_numbers(&mut cpus, &cores[i].output.logical_cpus);
        }
        i += 1;
    }
    assert(all.take(all.len() as int) =~= all);
    cpus
}

/// The class that a core's own metadata states.
pub open spec fn explicit_class(core: GroupedCoreView) -> CoreClass {
    match core.explicit_type {
        Some(CoreTypeInterpretation::Performance) => CoreClass::Performance,
        Some(CoreTypeInterpretation::Efficiency) => CoreClass::Efficiency,
        _ => CoreClass::Unknown,
    }
}

pub open spec fn explicit_value(core: GroupedCoreView) -> Seq<char> {
    match core.explicit_type {
        Some(CoreTypeInterpretation::Performance) => "64"@,
        Some(CoreTypeInterpretation::Efficiency) => "32"@,
        _ => "unavailable"@,
    }
}

/// A core that its own metadata classifies.
pub open spec fn explicitly_classified(core: GroupedCoreView, confidence: Single) -> GroupedCoreView {
    noted(
        classified(core, explicit_class(core), confidence),
        evidence(
            EvidenceSource::CoreType,
            core.output.logical_cpus,
            explicit_value(core),
            "Complete explicit core_type metadata classified this physical core as "@
                + core_class_text(explicit_class(core)) + "."@,
            EvidenceStrength::Explicit,
            EvidenceKind::Classification,
        ),
    )
}

/// A core of a topology in which all metadata states one type.
pub open spec fn explicitly_uniform(core: GroupedCoreView) -> GroupedCoreView {
    noted(
        classified(core, CoreClass::Uniform, Single { bits: SINGLE_TYPE_CONFIDENCE }),
        evidence(
            EvidenceSource::CoreType,
            core.output.logical_cpus,
            "single supported core type"@,
            "Complete explicit core_type metadata reports the same type for this physical core as for every other active core."@,
            EvidenceStrength::Explicit,
            EvidenceKind::Classification,
        ),
    )
}

pub open spec fn any_metadata(cores: Seq<GroupedCoreView>) -> bool {
    exists|i: int| 0 <= i < cores.len() && #[trigger] cores[i].core_type_metadata_present
}

pub open spec fn all_metadata_complete(cores: Seq<GroupedCoreView>) -> bool {
    forall|i: int|
        0 <= i < cores.len() ==> (#[trigger] cores[i]).complete_explicit_type
            && cores[i].explicit_type is Some
}

pub open spec fn has_type(cores: Seq<GroupedCoreView>, core_type: CoreTypeInterpretation) -> bool {
    exists|i: int| 0 <= i < cores.len() && #[trigger] cores[i].explicit_type == Some(core_type)
}

/// Both supported types occur, and no other does.
pub open spec fn both_types(cores: Seq<GroupedCoreView>) -> bool {
    &&& has_type(cores, CoreTypeInterpretation::Performance)
    &&& has_type(cores, CoreTypeInterpretation::Efficiency)
    &&& forall|i: int|
        0 <= i < cores.len() ==> (#[trigger] cores[i].explicit_type == Some(
            CoreTypeInterpretation::Performance,
        ) || cores[i].explicit_type == Some(CoreTypeInterpretation::Efficiency))
}

/// What is noted where explicit metadata cannot be used.
pub open spec fn partial_metadata_notes(cores: Seq<GroupedCoreView>) -> Seq<EvidenceView> {
    if any_metadata(cores) && !all_metadata_complete(cores) {
        seq![
            evidence(
                EvidenceSource::CoreType,
                sorted_set(flat_cpus(cores)),
                "partial"@,
                "core_type metadata was present but incomplete or contradictory, so it was not used to create an E-core mask."@,
                EvidenceStrength::Explicit,
                EvidenceKind::Warning,
            ),
        ]
    } else {
        Seq::empty()
    }
}

/// Classification by complete explicit metadata.
pub open spec fn explicit_classification(
    cores: Seq<GroupedCoreView>,
    policy: DetectorPolicy,
) -> Option<ClassifiedView> {
    if !any_metadata(cores) || !all_metadata_complete(cores) {
        None
    } else if both_types(cores) {
        let confidence = bounded_confidence(policy.explicit_hybrid_confidence);
        let after = cores.map_values(
            |core: GroupedCoreView| explicitly_classified(core, confidence),
        );
        let efficiency = class_cpus(outputs(after), CoreClass::Efficiency);
        Some(
            ClassifiedView {
                cores: after,
                classification: TopologyClass::Hybrid,
                confidence: policy.explicit_hybrid_confidence,
                evidence: seq![
                    evidence(
                        EvidenceSource::CoreType,
                        efficiency,
                        cpu_list_text(efficiency),
                        "Explicit core_type metadata identified CPUs "@ + cpu_list_text(efficiency)
                            + " as efficiency cores."@,
                        EvidenceStrength::Explicit,
                        EvidenceKind::Classification,
                    ),
                ],
            },
        )
    } else {
        Some(
            ClassifiedView {
                cores: cores.map_values(|core: GroupedCoreView| explicitly_uniform(core)),
                classification: TopologyClass::Uniform,
                confidence: Single { bits: SINGLE_TYPE_CONFIDENCE },
                evidence: seq![
                    evidence(
                        EvidenceSource::CoreType,
                        sorted_set(flat_cpus(cores)),
                        "single supported core type"@,
                        "Complete core_type metadata reports one core type across all active physical cores."@,
                        EvidenceStrength::Explicit,
                        EvidenceKind::Classification,
                    ),
                ],
            },
        )
    }
}

fn note_core(
    core: &mut GroupedCore,
    class: CoreClass,
    confidence: Single,
    source: EvidenceSource,
    observed: String,
    interpretation: String,
    strength: EvidenceStrength,
)
    ensures
        final(core)@ == noted(
            classified(old(core)@, class, confidence),
            evidence(
                source,
                old(core)@.output.logical_cpus,
                observed@,
                interpretation@,
                strength,
                EvidenceKind::Classification,
            ),
        ),
{
    broadcast use group_views;

    core.output.core_class = class;
    core.output.confidence = confidence;
    let item = DetectionEvidence::new(
        source,
        &core.output.logical_cpus,
        observed,
        interpretation,
        strength,
        EvidenceKind::Classification,
    );
    core.output.evidence.push(item);
}

fn classify_core_explicitly(core: &mut GroupedCore, confidence: Single)
    ensures
        final(core)@ == explicitly_classified(old(core)@, confidence),
{
    let class = match core.explicit_type {
        Some(CoreTypeInterpretation::Performance) => CoreClass::Performance,
        Some(CoreTypeInterpretation::Efficiency) => CoreClass::Efficiency,
        _ => CoreClass::Unknown,
    };
    let observed = match core.explicit_type {
        Some(CoreTypeInterpretation::Performance) => "64".to_owned(),
        Some(CoreTypeInterpretation::Efficiency) => "32".to_owned(),
        _ => "unavailable".to_owned(),
    };
    note_core(
        core,
        class,
        confidence,
        EvidenceSource::CoreType,
        observed,
        "Complete explicit core_type metadata classified this physical core as ".to_owned().concat(
            class.name().as_str(),
        ).concat("."),
        EvidenceStrength::Explicit,
    );
}

fn has_metadata(cores: &Vec<GroupedCore>) -> (out: bool)
    ensures
        out == any_metadata(views(cores@)),
{
    let ghost all = views(cores@);
    let mut i: usize = 0;
    while i < cores.len()
        invariant
            i <= cores@.len(),
            all == views(cores@),
            forall|k: int| 0 <= k < i ==> !#[trigger] all[k].core_type_metadata_present,
        decreases cores.len() - i,
    {
        assert(all[i as int] == cores@[i as int]@);
        if cores[i].core_type_metadata_present {
            assert(all[i as int].core_type_metadata_present);
            return true;
        }
        i += 1;
    }
    false
}

fn is_metadata_complete(cores: &Vec<GroupedCore>) -> (out: bool)
    ensures
        out == all_metadata_complete(views(cores@)),
{
    let ghost all = views(cores@);
    let mut i: usize = 0;
    while i < cores.len()
        invariant
            i <= cores@.len(),
            all == views(cores@),
            forall|k: int|
                0 <= k < i ==> (#[trigger] all[k]).complete_explicit_type && all[k].explicit_type
                    is Some,
        decreases cores.len() - i,
    {
        assert(all[i as int] == cores@[i as int]@);
        if !(cores[i].complete_explicit_type && cores[i].explicit_type.is_some()) {
            assert(!(all[i as int].complete_explicit_type && all[i as int].explicit_type is Some));
            return false;
        }
        i += 1;
    }
    true
}

fn has_both_types(cores: &Vec<GroupedCore>) -> (out: bool)
    ensures
        out == both_types(views(cores@)),
{
    let ghost all = views(cores@);
    let mut performance = false;
    let mut efficiency = false;
    let mut i: usize = 0;
    while i < cores.len()
        invariant
            i <= cores@.len(),
            all == views(cores@),
            performance <==> exists|k: int|
                0 <= k < i && #[trigger] all[k].explicit_type == Some(
                    CoreTypeInterpretation::Performance,
                ),
            efficiency <==> exists|k: int|
                0 <= k < i && #[trigger] all[k].explicit_type == Some(
                    CoreTypeInterpretation::Efficiency,
                ),
            forall|k: int|
                0 <= k < i ==> (#[trigger] all[k].explicit_type == Some(
                    CoreTypeInterpretation::Performance,
                ) || all[k].explicit_type == Some(CoreTypeInterpretation::Efficiency)),
        decreases cores.len() - i,
    {
        assert(all[i as int] == cores@[i as int]@);
        assert(all[i as int].explicit_type == cores@[i as int].explicit_type);
        match cores[i].explicit_type {
            Some(CoreTypeInterpretation::Performance) => {
                performance = true;
            },
            Some(CoreTypeInterpretation::Efficiency) => {
                efficiency = true;
            },
            _ => {
                return false;
            },
        }
        i += 1;
    }
    performance && efficiency
}

fn classify_explicit(
    cores: &mut Vec<GroupedCore>,
    policy: &DetectorPolicy,
    notes: &mut Vec<DetectionEvidence>,
) -> (out: Option<Classification>)
    requires
        old(notes)@.len() == 0,
    ensures
        match out {
            Some(result) => {
                let expected = explicit_classification(views(old(cores)@), *policy);
                &&& expected is Some
                &&& views(final(cores)@) == expected->0.cores
                &&& result.classification == expected->0.classification
                &&& result.confidence == expected->0.confidence
                &&& views(result.evidence@) == expected->0.evidence
            },
            None => {
                &&& explicit_classification(views(old(cores)@), *policy) is None
                &&& final(cores)@ == old(cores)@
                &&& views(final(notes)@) == partial_metadata_notes(views(old(cores)@))
            },
        },
{
    broadcast use group_views;

    let ghost before = views(cores@);
    if !has_metadata(cores) {
        return None;
    }
    if !is_metadata_complete(cores) {
        let cpus = all_core_cpus(cores);
        note(
            notes,
            EvidenceSource::CoreType,
            &cpus,
            "partial".to_owned(),
            "core_type metadata was present but incomplete or contradictory, so it was not used to create an E-core mask.".to_owned(),
            EvidenceStrength::Explicit,
            EvidenceKind::Warning,
        );
        return None;
    }
    let mut found: Vec<DetectionEvidence> = Vec::new();
    if has_both_types(cores) {
        let confidence = clamp_confidence(policy.explicit_hybrid_confidence);
        let ghost after = before.map_values(
            |core: GroupedCoreView| explicitly_classified(core, confidence),
        );
        let mut i: usize = 0;
        while i < cores.len()
            invariant
                i <= cores@.len(),
                cores@.len() == before.len(),
                after == before.map_values(
                    |core: GroupedCoreView| explicitly_classified(core, confidence),
                ),
                forall|k: int| 0 <= k < i ==> (#[trigger] cores@[k])@ == after[k],
                forall|k: int| i <= k < before.len() ==> (#[trigger] cores@[k])@ == before[k],
            decreases cores.len() - i,
        {
            classify_core_explicitly(&mut cores[i], confidence);
            i += 1;
        }
        assert(views(cores@) =~= after);
        let efficiency = cpus_of_class(cores, CoreClass::Efficiency);
        note(
            &mut found,
            EvidenceSource::CoreType,
            &efficiency,
            format_cpu_list(&efficiency),
            "Explicit core_type metadata identified CPUs ".to_owned().concat(
                format_cpu_list(&efficiency).as_str(),
            ).concat(" as efficiency cores."),
            EvidenceStrength::Explicit,
            EvidenceKind::Classification,
        );
        return Some(
            Classification {
                classification: TopologyClass::Hybrid,
                confidence: policy.explicit_hybrid_confidence,
                evidence: found,
            },
        );
    }
    let cpus = all_core_cpus(cores);
    let ghost after = before.map_values(|core: GroupedCoreView| explicitly_uniform(core));
    let mut i: usize = 0;
    while i < cores.len()
        invariant
            i <= cores@.len(),
            cores@.len() == before.len(),
            after == before.map_values(|core: GroupedCoreView| explicitly_uniform(core)),
            forall|k: int| 0 <= k < i ==> (#[trigger] cores@[k])@ == after[k],
            forall|k: int| i <= k < before.len() ==> (#[trigger] cores@[k])@ == before[k],
        decreases cores.len() - i,
    {
        note_core(
            &mut cores[i],
            CoreClass::Uniform,
            Single { bits: SINGLE_TYPE_CONFIDENCE },
            EvidenceSource::CoreType,
            "single supported core type".to_owned(),
            "Complete explicit core_type metadata reports the same type for this physical core as for every other active core.".to_owned(),
            EvidenceStrength::Explicit,
        );
        i += 1;
    }
    assert(views(cores@) =~= after);
    note(
        &mut found,
        EvidenceSource::CoreType,
        &cpus,
        "single supported core type".to_owned(),
        "Complete core_type metadata reports one core type across all active physical cores.".to_owned(),
        EvidenceStrength::Explicit,
        EvidenceKind::Classification,
    );
    Some(
        Classification {
            classification: TopologyClass::Uniform,
            confidence: Single { bits: SINGLE_TYPE_CONFIDENCE },
            evidence: found,
        },
    )
}

/// The distinct neighbours of a sequence.
pub open spec fn without_repeats(s: Seq<usize>) -> Seq<usize>
    decreases s.len(),
{
    if s.len() == 0 {
        s
    } else {
        let front = without_repeats(s.drop_last());
        if front.len() > 0 && front.last() == s.last() {
            front
        } else {
            front.push(s.last())
        }
    }
}

pub open spec fn size_before() -> spec_fn(usize, usize) -> bool {
    |a: usize, b: usize| a < b
}

/// The distinct sizes, in ascending order.
pub open spec fn distinct_sizes(s: Seq<usize>) -> Seq<usize> {
    without_repeats(stable_sorted(s, size_before()))
}

fn is_size_before(a: &usize, b: &usize) -> (out: bool)
    ensures
        out == (*a < *b),
{
    *a < *b
}

fn find_distinct_sizes(sizes: Vec<usize>) -> (out: Vec<usize>)
    ensures
        out@ == distinct_sizes(sizes@),
{
    let sorted = stable_sort(sizes, is_size_before, Ghost(size_before()));
    let mut out: Vec<usize> = Vec::new();
    let mut i: usize = 0;
    assert(sorted@.take(0) =~= Seq::empty());
    while i < sorted.len()
        invariant
            i <= sorted@.len(),
            out@ == without_repeats(sorted@.take(i as int)),
        decreases sorted.len() - i,
    {
        assert(sorted@.take(i + 1).drop_last() =~= sorted@.take(i as int));
        if out.len() > 0 && out[out.len() - 1] == sorted[i] {
        } else {
            out.push(sorted[i]);
        }
        i += 1;
    }
    assert(sorted@.take(sorted@.len() as int) =~= sorted@);
    out
}

/// A set of sizes in braces.
pub open spec fn sizes_text(sizes: Seq<usize>) -> Seq<char> {
    "{"@ + join(sizes.map_values(|n: usize| decimal(n as nat)), ", "@) + "}"@
}

fn format_sizes(sizes: &Vec<usize>) -> (out: String)
    ensures
        out@ == sizes_text(sizes@),
{
    broadcast use group_views;

    let ghost text = |n: usize| decimal(n as nat);
    let mut items: Vec<String> = Vec::new();
    let mut i: usize = 0;
    while i < sizes.len()
        invariant
            i <= sizes@.len(),
            text == (|n: usize| decimal(n as nat)),
            views(items@) == sizes@.take(i as int).map_values(text),
        decreases sizes.len() - i,
    {
        items.push(decimal_text(sizes[i] as u64));
        proof {
            sizes@.lemma_map_take_succ(text, i as int);
        }
        i += 1;
    }
    assert(sizes@.take(sizes@.len() as int) =~= sizes@);
    "{".to_owned().concat(join_text(&items, ", ").as_str()).concat("}")
}

pub open spec fn speed_before() -> spec_fn(u64, u64) -> bool {
    |a: u64, b: u64| a < b
}

fn is_speed_before(a: &u64, b: &u64) -> (out: bool)
    ensures
        out == (*a < *b),
{
    *a < *b
}

/// The known maximum frequencies of cores, in ascending order.
pub open spec fn ordered_speeds(cores: Seq<GroupedCoreView>) -> Seq<u64> {
    stable_sorted(
        cores.filter_map(|core: GroupedCoreView| core.max_frequency_khz),
        speed_before(),
    )
}

fn order_speeds(cores: &Vec<GroupedCore>) -> (out: Vec<u64>)
    ensures
        out@ == ordered_speeds(views(cores@)),
{
    let ghost all = views(cores@);
    let ghost speed = |core: GroupedCoreView| core.max_frequency_khz;
    let mut speeds: Vec<u64> = Vec::new();
    let mut i: usize = 0;
    proof {
        assert(all.take(0) =~= Seq::empty());
        reveal(Seq::filter_map);
    }
    while i < cores.len()
        invariant
            i <= cores@.len(),
            all == views(cores@),
            speed == (|core: GroupedCoreView| core.max_frequency_khz),
            speeds@ == all.take(i as int).filter_map(speed),
        decreases cores.len() - i,
    {
        proof {
            assert(all[i as int] == cores@[i as int]@);
            all.lemma_filter_map_take_succ(speed, i as int);
        }
        match cores[i].max_frequency_khz {
            Some(value) => {
                speeds.push(value);
            },
            None => {},
        }
        i += 1;
    }
    assert(all.take(all.len() as int) =~= all);
    stable_sort(speeds, is_speed_before, Ghost(speed_before()))
}

/// The ratio of a speed to the one before it.
pub open spec fn step(speeds: Seq<u64>, i: int) -> Double {
    quotient(speeds[i], speeds[i - 1])
}

/// The step at `i` is larger than the step at `j`: the ratio of the speeds at
/// `i` and before it exceeds that at `j`.
pub open spec fn larger_step(speeds: Seq<u64>, i: int, j: int) -> bool {
    step(speeds, i).units() > step(speeds, j).units()
}

/// Where the largest step between neighbouring speeds is, among the first
/// ones; of equal steps the last.
pub open spec fn strongest_step(speeds: Seq<u64>, count: int) -> Option<int>
    decreases count,
{
    if count < 2 {
        None
    } else {
        let before = strongest_step(speeds, count - 1);
        if speeds[count - 2] == 0 {
            before
        } else {
            match before {
                Some(best) => if larger_step(speeds, best, count - 1) {
                    before
                } else {
                    Some(count - 1)
                },
                None => Some(count - 1),
            }
        }
    }
}

/// Split ascending speeds at the largest relative step.
pub fn strongest_frequency_split(speeds: &Vec<u64>) -> (out: Option<usize>)
    ensures
        match out {
            Some(split) => strongest_step(speeds@, speeds@.len() as int) == Some(split as int) && 0
                < split < speeds@.len() && speeds@[split - 1] > 0,
            None => strongest_step(speeds@, speeds@.len() as int) is None,
        },
{
    if speeds.len() < 2 {
        return None;
    }
    let mut best: Option<usize> = None;
    let mut count: usize = 1;
    while count < speeds.len()
        invariant
            1 <= count <= speeds@.len(),
            match best {
                Some(split) => strongest_step(speeds@, count as int) == Some(split as int) && 0
                    < split < count && speeds@[split - 1] > 0,
                None => strongest_step(speeds@, count as int) is None,
            },
        decreases speeds.len() - count,
    {
        if speeds[count - 1] > 0 {
            match best {
                Some(split) => {
                    let last = divide(speeds[count], speeds[count - 1]);
                    if !last.is_smaller(divide(speeds[split], speeds[split - 1])) {
                        best = Some(count);
                    }
                },
                None => {
                    best = Some(count);
                },
            }
        }
        count += 1;
    }
    best
}

/// No step between neighbouring speeds is larger than the strongest one, and
/// none behind it is as large.
pub proof fn strongest_step_is_largest(speeds: Seq<u64>, count: int, j: int)
    requires
        forall|i: int| 0 <= i < speeds.len() ==> #[trigger] speeds[i] > 0,
        1 <= j < count <= speeds.len(),
    ensures
        strongest_step(speeds, count) is Some,
        ({
            let split = strongest_step(speeds, count)->0;
            &&& 0 < split < count
            &&& !larger_step(speeds, j, split)
            &&& j > split ==> larger_step(speeds, split, j)
        }),
    decreases count,
{
    assert(speeds[count - 2] > 0);
    if count == 2 {
        assert(strongest_step(speeds, count - 1) is None);
    } else {
        strongest_step_is_largest(speeds, count - 1, 1);
        if j < count - 1 {
            strongest_step_is_largest(speeds, count - 1, j);
        }
    }
}

/// The speeds from `from` to `to` differ by more than the given part of the
/// largest.
pub open spec fn spread_exceeds(speeds: Seq<u64>, from: int, to: int, limit: Double) -> bool {
    let lowest = speeds[from];
    let highest = speeds[to - 1];
    highest == 0 || quotient((highest - lowest) as u64, highest).units() > limit.units()
}

fn is_spread_above(speeds: &Vec<u64>, from: usize, to: usize, limit: Double) -> (out: bool)
    requires
        from < to <= speeds@.len(),
        speeds@[from as int] <= speeds@[to - 1],
    ensures
        out == spread_exceeds(speeds@, from as int, to as int, limit),
{
    let lowest: u64 = speeds[from];
    let highest: u64 = speeds[to - 1];
    highest == 0 || limit.is_smaller(divide(highest - lowest, highest))
}

/// The ratio of two speeds with three decimals.
pub open spec fn ratio_text(high: u64, low: u64) -> Seq<char> {
    three_decimals(quotient(high, low).thousandths())
}

fn format_ratio(high: u64, low: u64) -> (out: String)
    requires
        low > 0,
    ensures
        out@ == ratio_text(high, low),
{
    divide(high, low).with_three_decimals()
}

/// A core whose maximum frequency is at most the given one.
pub open spec fn is_slow(limit: u64) -> spec_fn(GroupedCoreView) -> bool {
    |core: GroupedCoreView| core.max_frequency_khz is Some && core.max_frequency_khz->0 <= limit
}

/// A core whose maximum frequency is above the given one.
pub open spec fn is_fast(limit: u64) -> spec_fn(GroupedCoreView) -> bool {
    |core: GroupedCoreView| core.max_frequency_khz is Some && core.max_frequency_khz->0 > limit
}

/// The distinct numbers of threads of cores, in ascending order.
pub open spec fn widths(cores: Seq<GroupedCoreView>) -> Seq<usize> {
    distinct_sizes(
        cores.map_values(|core: GroupedCoreView| core.output.logical_cpus.len() as usize),
    )
}

/// The distinct cache layouts of cores.
pub open spec fn cache_patterns(cores: Seq<GroupedCoreView>) -> Set<Seq<char>> {
    cores.filter_map(|core: GroupedCoreView| core.cache_fingerprint).to_set()
}

pub open spec fn exactly_measured(core: GroupedCoreView) -> bool {
    core.exact_grouping && core.complete_frequency
}

/// There are enough cores, and all are exactly grouped and measured.
pub open spec fn frequencies_usable(cores: Seq<GroupedCoreView>, policy: DetectorPolicy) -> bool {
    &&& cores.len() >= 2 * policy.minimum_cores_per_cluster
    &&& forall|i: int| 0 <= i < cores.len() ==> exactly_measured(#[trigger] cores[i])
}

/// What is noted where the frequencies cannot be used.
pub open spec fn unusable_notes(cores: Seq<GroupedCoreView>) -> Seq<EvidenceView> {
    if (exists|i: int| 0 <= i < cores.len() && (#[trigger] cores[i]).max_frequency_khz is Some) && (
    exists|i: int| 0 <= i < cores.len() && !(#[trigger] cores[i]).complete_frequency) {
        seq![
            evidence(
                EvidenceSource::MaximumFrequency,
                sorted_set(flat_cpus(cores)),
                "incomplete"@,
                "Maximum-frequency metadata was incomplete or inconsistent and was not used for classification."@,
                EvidenceStrength::Weak,
                EvidenceKind::Warning,
            ),
        ]
    } else {
        Seq::empty()
    }
}

/// The two clusters are large enough, far enough apart and tight enough.
pub open spec fn well_separated(speeds: Seq<u64>, split: int, policy: DetectorPolicy) -> bool {
    &&& split >= policy.minimum_cores_per_cluster
    &&& speeds.len() - split >= policy.minimum_cores_per_cluster
    &&& step(speeds, split).units() >= policy.minimum_frequency_ratio.units()
    &&& !spread_exceeds(speeds, 0, split, policy.maximum_cluster_spread)
    &&& !spread_exceeds(speeds, split, speeds.len() as int, policy.maximum_cluster_spread)
}

pub open spec fn frequency_note(
    cores: Seq<GroupedCoreView>,
    observed: Seq<char>,
    interpretation: Seq<char>,
    kind: EvidenceKind,
) -> EvidenceView {
    evidence(
        EvidenceSource::MaximumFrequency,
        sorted_set(flat_cpus(cores)),
        observed,
        interpretation,
        EvidenceStrength::Moderate,
        kind,
    )
}

pub open spec fn speed_text(core: GroupedCoreView) -> Seq<char> {
    match core.max_frequency_khz {
        Some(value) => decimal(value as nat),
        None => "unavailable"@,
    }
}

/// A core that its frequency cluster classifies.
pub open spec fn heuristically_classified(
    core: GroupedCoreView,
    limit: u64,
    confidence: Single,
) -> GroupedCoreView {
    match core.max_frequency_khz {
        None => core,
        Some(speed) => noted(
            classified(
                core,
                if speed <= limit {
                    CoreClass::Efficiency
                } else {
                    CoreClass::Performance
                },
                confidence,
            ),
            evidence(
                EvidenceSource::MaximumFrequency,
                core.output.logical_cpus,
                speed_text(core),
                "This physical core belongs to the repeated "@ + (if speed <= limit {
                    "lower-frequency"@
                } else {
                    "higher-frequency"@
                })
                    + " cluster; the classification is heuristic and SMT-corroborated."@,
                EvidenceStrength::Moderate,
                EvidenceKind::Classification,
            ),
        ),
    }
}

/// Classification by two repeated frequency clusters with different numbers
/// of threads, and what is noted where there is none.
pub open spec fn heuristic_classification(cores: Seq<GroupedCoreView>, policy: DetectorPolicy) -> (
    Option<ClassifiedView>,
    Seq<EvidenceView>,
) {
    let speeds = ordered_speeds(cores);
    if !frequencies_usable(cores, policy) {
        (None, unusable_notes(cores))
    } else {
        match strongest_step(speeds, speeds.len() as int) {
            None => (None, Seq::empty()),
            Some(split) => {
                let limit = speeds[split - 1];
                let slow = widths(cores.filter(is_slow(limit)));
                let fast = widths(cores.filter(is_fast(limit)));
                if !well_separated(speeds, split, policy) {
                    (
                        None,
                        seq![
                            frequency_note(
                                cores,
                                "strongest cluster ratio "@ + ratio_text(speeds[split], limit),
                                "Maximum-frequency groups were not sufficiently separated and internally consistent for hybrid classification."@,
                                EvidenceKind::Observation,
                            ),
                        ],
                    )
                } else if slow.len() != 1 || fast.len() != 1 {
                    (
                        None,
                        seq![
                            frequency_note(
                                cores,
                                "low SMT widths "@ + sizes_text(slow) + "; high SMT widths "@
                                    + sizes_text(fast),
                                "Frequency clusters exist, but their SMT layouts are internally inconsistent."@,
                                EvidenceKind::Contradiction,
                            ),
                        ],
                    )
                } else if fast[0] <= slow[0] {
                    (
                        None,
                        seq![
                            frequency_note(
                                cores,
                                "low SMT width "@ + decimal(slow[0] as nat) + "; high SMT width "@
                                    + decimal(fast[0] as nat),
                                "Frequency and SMT distinctions do not form the repeated performance/efficiency pattern required by policy."@,
                                EvidenceKind::Observation,
                            ),
                        ],
                    )
                } else {
                    let after = cores.map_values(
                        |core: GroupedCoreView|
                            heuristically_classified(
                                core,
                                limit,
                                bounded_confidence(policy.heuristic_hybrid_confidence),
                            ),
                    );
                    let patterns = cache_patterns(cores).len();
                    (
                        Some(
                            ClassifiedView {
                                cores: after,
                                classification: TopologyClass::Hybrid,
                                confidence: policy.heuristic_hybrid_confidence,
                                evidence: seq![
                                    evidence(
                                        EvidenceSource::MaximumFrequency,
                                        class_cpus(outputs(after), CoreClass::Efficiency),
                                        "frequency ratio "@ + ratio_text(speeds[split], limit)
                                            + "; SMT widths low="@ + decimal(slow[0] as nat)
                                            + ", high="@ + decimal(fast[0] as nat)
                                            + "; cache patterns="@ + (if patterns == 0 {
                                            "unavailable"@
                                        } else {
                                            decimal(patterns)
                                        }),
                                        "Two repeated, well-separated maximum-frequency groups were corroborated by a consistent SMT-width distinction. This remains heuristic."@,
                                        EvidenceStrength::Moderate,
                                        EvidenceKind::Classification,
                                    ),
                                ],
                            },
                        ),
                        Seq::empty(),
                    )
                }
            },
        }
    }
}

fn are_frequencies_usable(cores: &Vec<GroupedCore>, policy: &DetectorPolicy) -> (out: bool)
    ensures
        out == frequencies_usable(views(cores@), *policy),
{
    let ghost all = views(cores@);
    if cores.len() / 2 < policy.minimum_cores_per_cluster {
        return false;
    }
    let mut i: usize = 0;
    while i < cores.len()
        invariant
            i <= cores@.len(),
            all == views(cores@),
            forall|k: int| 0 <= k < i ==> exactly_measured(#[trigger] all[k]),
        decreases cores.len() - i,
    {
        assert(all[i as int] == cores@[i as int]@);
        if !cores[i].exact_grouping || !cores[i].complete_frequency {
            assert(!exactly_measured(all[i as int]));
            return false;
        }
        i += 1;
    }
    true
}

fn note_unusable_frequencies(cores: &Vec<GroupedCore>, notes: &mut Vec<DetectionEvidence>)
    ensures
        views(final(notes)@) == views(old(notes)@) + unusable_notes(views(cores@)),
{
    let ghost all = views(cores@);
    let mut known = false;
    let mut incomplete = false;
    let mut i: usize = 0;
    while i < cores.len()
        invariant
            i <= cores@.len(),
            all == views(cores@),
            known <==> exists|k: int| 0 <= k < i && (#[trigger] all[k]).max_frequency_khz is Some,
            incomplete <==> exists|k: int| 0 <= k < i && !(#[trigger] all[k]).complete_frequency,
        decreases cores.len() - i,
    {
        assert(all[i as int] == cores@[i as int]@);
        if cores[i].max_frequency_khz.is_some() {
            known = true;
        }
        if !cores[i].complete_frequency {
            incomplete = true;
        }
        i += 1;
    }
    if known && incomplete {
        let cpus = all_core_cpus(cores);
        note(
            notes,
            EvidenceSource::MaximumFrequency,
            &cpus,
            "incomplete".to_owned(),
            "Maximum-frequency metadata was incomplete or inconsistent and was not used for classification.".to_owned(),
            EvidenceStrength::Weak,
            EvidenceKind::Warning,
        );
    }
}

/// The numbers of threads of the slow cores, or of the fast ones.
fn cluster_widths(cores: &Vec<GroupedCore>, limit: u64, slow: bool) -> (out: Vec<usize>)
    ensures
        out@ == widths(
            views(cores@).filter(
                if slow {
                    is_slow(limit)
                } else {
                    is_fast(limit)
                },
            ),
        ),
{
    let ghost all = views(cores@);
    let ghost keep = if slow {
        is_slow(limit)
    } else {
        is_fast(limit)
    };
    let ghost width = |core: GroupedCoreView| core.output.logical_cpus.len() as usize;
    let mut sizes: Vec<usize> = Vec::new();
    let mut i: usize = 0;
    proof {
        reveal(Seq::filter);
        assert(all.take(0).filter(keep).map_values(width) =~= Seq::empty());
    }
    while i < cores.len()
        invariant
            i <= cores@.len(),
            all == views(cores@),
            keep == if slow {
                is_slow(limit)
            } else {
                is_fast(limit)
            },
            width == (|core: GroupedCoreView| core.output.logical_cpus.len() as usize),
            sizes@ == all.take(i as int).filter(keep).map_values(width),
        decreases cores.len() - i,
    {
        proof {
            assert(all[i as int] == cores@[i as int]@);
            assert(all.take(i + 1) =~= all.take(i as int).push(all[i as int]));
            all.take(i as int).lemma_filter_push(all[i as int], keep);
            all.take(i as int).filter(keep).lemma_push_map_commute(width, all[i as int]);
        }
        match cores[i].max_frequency_khz {
            Some(speed) => {
                if (speed <= limit) == slow {
                    sizes.push(cores[i].output.logical_cpus.len());
                }
            },
            None => {},
        }
        i += 1;
    }
    assert(all.take(all.len() as int) =~= all);
    find_distinct_sizes(sizes)
}

fn all_widths(cores: &Vec<GroupedCore>) -> (out: Vec<usize>)
    ensures
        out@ == widths(views(cores@)),
{
    let ghost all = views(cores@);
    let ghost width = |core: GroupedCoreView| core.output.logical_cpus.len() as usize;
    let mut sizes: Vec<usize> = Vec::new();
    let mut i: usize = 0;
    while i < cores.len()
        invariant
            i <= cores@.len(),
            all == views(cores@),
            width == (|core: GroupedCoreView| core.output.logical_cpus.len() as usize),
            sizes@ == all.take(i as int).map_values(width),
        decreases cores.len() - i,
    {
        proof {
            assert(all[i as int] == cores@[i as int]@);
            all.lemma_map_take_succ(width, i as int);
        }
        sizes.push(cores[i].output.logical_cpus.len());
        i += 1;
    }
    assert(all.take(all.len() as int) =~= all);
    find_distinct_sizes(sizes)
}

fn holds_text(texts: &Vec<&str>, text: &str) -> (out: bool)
    ensures
        out == views(texts@).contains(text@),
{
    let ghost all = views(texts@);
    let mut i: usize = 0;
    while i < texts.len()
        invariant
            i <= texts@.len(),
            all == views(texts@),
            forall|k: int| 0 <= k < i ==> #[trigger] all[k] != text@,
        decreases texts.len() - i,
    {
        assert(all[i as int] == texts@[i as int]@);
        if same_text(texts[i], text) {
            assert(all[i as int] == text@);
            return true;
        }
        i += 1;
    }
    false
}

/// How many distinct cache layouts the cores have.
fn count_cache_patterns(cores: &Vec<GroupedCore>) -> (out: usize)
    ensures
        out == cache_patterns(views(cores@)).len(),
{
    broadcast use group_views;

    let ghost all = views(cores@);
    let ghost layout = |core: GroupedCoreView| core.cache_fingerprint;
    let mut seen: Vec<&str> = Vec::new();
    let mut i: usize = 0;
    proof {
        assert(all.take(0) =~= Seq::empty());
        reveal(Seq::filter_map);
        assert(views(seen@).to_set() =~= all.take(0).filter_map(layout).to_set());
    }
    while i < cores.len()
        invariant
            i <= cores@.len(),
            all == views(cores@),
            layout == (|core: GroupedCoreView| core.cache_fingerprint),
            views(seen@).no_duplicates(),
            views(seen@).to_set() == all.take(i as int).filter_map(layout).to_set(),
        decreases cores.len() - i,
    {
        let ghost before = all.take(i as int).filter_map(layout);
        proof {
            assert(all[i as int] == cores@[i as int]@);
            all.lemma_filter_map_take_succ(layout, i as int);
        }
        match &cores[i].cache_fingerprint {
            Some(text) => {
                proof {
                    before.lemma_push_to_set_commute(text@);
                    views(seen@).lemma_push_to_set_commute(text@);
                    assert(all.take(i + 1).filter_map(layout) =~= before.push(text@));
                    if views(seen@).contains(text@) {
                        assert(views(seen@).to_set().contains(text@));
                        assert(before.to_set().insert(text@) =~= before.to_set());
                    }
                }
                if !holds_text(&seen, text.as_str()) {
                    let ghost listed = views(seen@);
                    seen.push(text.as_str());
                    assert(views(seen@) =~= listed.push(text@));
                    assert(views(seen@).no_duplicates()) by {
                        assert forall|x: int, y: int|
                            0 <= x < listed.len() + 1 && 0 <= y < listed.len() + 1 && x
                                != y implies views(seen@)[x] != views(seen@)[y] by {
                            if x == listed.len() {
                                assert(listed.contains(listed[y]));
                            } else if y == listed.len() {
                                assert(listed.contains(listed[x]));
                            }
                        }
                    }
                }
            },
            None => {
                assert(all.take(i + 1).filter_map(layout) =~= before);
            },
        }
        i += 1;
    }
    assert(all.take(all.len() as int) =~= all);
    proof {
        views(seen@).unique_seq_to_set();
    }
    seen.len()
}

fn classify_core_heuristically(core: &mut GroupedCore, limit: u64, confidence: Single)
    ensures
        final(core)@ == heuristically_classified(old(core)@, limit, confidence),
{
    match core.max_frequency_khz {
        None => {},
        Some(speed) => {
            let cluster = if speed <= limit {
                "lower-frequency"
            } else {
                "higher-frequency"
            };
            let class = if speed <= limit {
                CoreClass::Efficiency
            } else {
                CoreClass::Performance
            };
            note_core(
                core,
                class,
                confidence,
                EvidenceSource::MaximumFrequency,
                decimal_text(speed),
                "This physical core belongs to the repeated ".to_owned().concat(cluster).concat(
                    " cluster; the classification is heuristic and SMT-corroborated.",
                ),
                EvidenceStrength::Moderate,
            );
        },
    }
}

fn note_frequencies(
    cores: &Vec<GroupedCore>,
    notes: &mut Vec<DetectionEvidence>,
    observed: String,
    interpretation: &str,
    kind: EvidenceKind,
)
    ensures
        views(final(notes)@) == views(old(notes)@) + seq![
            frequency_note(views(cores@), observed@, interpretation@, kind),
        ],
{
    let cpus = all_core_cpus(cores);
    note(
        notes,
        EvidenceSource::MaximumFrequency,
        &cpus,
        observed,
        interpretation.to_owned(),
        EvidenceStrength::Moderate,
        kind,
    );
}

fn are_well_separated(speeds: &Vec<u64>, split: usize, policy: &DetectorPolicy) -> (out: bool)
    requires
        0 < split < speeds@.len(),
        speeds@[split - 1] > 0,
        forall|i: int, j: int| 0 <= i < j < speeds@.len() ==> speeds@[i] <= speeds@[j],
    ensures
        out == well_separated(speeds@, split as int, *policy),
{
    split >= policy.minimum_cores_per_cluster && speeds.len() - split
        >= policy.minimum_cores_per_cluster && !divide(speeds[split], speeds[split - 1]).is_smaller(
        policy.minimum_frequency_ratio,
    ) && !is_spread_above(
        speeds,
        0,
        split,
        policy.maximum_cluster_spread,
    ) && !is_spread_above(speeds, split, speeds.len(), policy.maximum_cluster_spread)
}

fn classify_heuristic(
    cores: &mut Vec<GroupedCore>,
    policy: &DetectorPolicy,
    notes: &mut Vec<DetectionEvidence>,
) -> (out: Option<Classification>)
    ensures
        ({
            let expected = heuristic_classification(views(old(cores)@), *policy);
            match out {
                Some(result) => {
                    &&& expected.0 is Some
                    &&& views(final(cores)@) == expected.0->0.cores
                    &&& result.classification == expected.0->0.classification
                    &&& result.confidence == expected.0->0.confidence
                    &&& views(result.evidence@) == views(old(notes)@) + expected.0->0.evidence
                },
                None => {
                    &&& expected.0 is None
                    &&& final(cores)@ == old(cores)@
                    &&& views(final(notes)@) == views(old(notes)@) + expected.1
                },
            }
        }),
{
    broadcast use group_views;

    let ghost before = views(cores@);
    let ghost earlier = views(notes@);
    if !are_frequencies_usable(cores, policy) {
        note_unusable_frequencies(cores, notes);
        return None;
    }
    let speeds = order_speeds(cores);
    proof {
        crate::order::lemma_stable_sorted_order(
            before.filter_map(|core: GroupedCoreView| core.max_frequency_khz),
            speed_before(),
        );
        assert forall|i: int, j: int| 0 <= i < j < speeds@.len() implies speeds@[i]
            <= speeds@[j] by {
            assert(!speed_before()(speeds@[j], speeds@[i]));
        }
    }
    let split: usize = match strongest_frequency_split(&speeds) {
        Some(split) => split,
        None => {
            return None;
        },
    };
    let limit: u64 = speeds[split - 1];
    let ratio = format_ratio(speeds[split], limit);
    if !are_well_separated(&speeds, split, policy) {
        note_frequencies(
            cores,
            notes,
            "strongest cluster ratio ".to_owned().concat(ratio.as_str()),
            "Maximum-frequency groups were not sufficiently separated and internally consistent for hybrid classification.",
            EvidenceKind::Observation,
        );
        return None;
    }
    let slow = cluster_widths(cores, limit, true);
    let fast = cluster_widths(cores, limit, false);
    if slow.len() != 1 || fast.len() != 1 {
        note_frequencies(
            cores,
            notes,
            "low SMT widths ".to_owned().concat(format_sizes(&slow).as_str()).concat(
                "; high SMT widths ",
            ).concat(format_sizes(&fast).as_str()),
            "Frequency clusters exist, but their SMT layouts are internally inconsistent.",
            EvidenceKind::Contradiction,
        );
        return None;
    }
    let low_width: usize = slow[0];
    let high_width: usize = fast[0];
    if high_width <= low_width {
        note_frequencies(
            cores,
            notes,
            "low SMT width ".to_owned().concat(decimal_text(low_width as u64).as_str()).concat(
                "; high SMT width ",
            ).concat(decimal_text(high_width as u64).as_str()),
            "Frequency and SMT distinctions do not form the repeated performance/efficiency pattern required by policy.",
            EvidenceKind::Observation,
        );
        return None;
    }
    let patterns: usize = count_cache_patterns(cores);
    let confidence = clamp_confidence(policy.heuristic_hybrid_confidence);
    let ghost after = before.map_values(
        |core: GroupedCoreView| heuristically_classified(core, limit, confidence),
    );
    let mut i: usize = 0;
    while i < cores.len()
        invariant
            i <= cores@.len(),
            cores@.len() == before.len(),
            after == before.map_values(
                |core: GroupedCoreView| heuristically_classified(core, limit, confidence),
            ),
            forall|k: int| 0 <= k < i ==> (#[trigger] cores@[k])@ == after[k],
            forall|k: int| i <= k < before.len() ==> (#[trigger] cores@[k])@ == before[k],
        decreases cores.len() - i,
    {
        classify_core_heuristically(&mut cores[i], limit, confidence);
        i += 1;
    }
    assert(views(cores@) =~= after);
    let efficiency = cpus_of_class(cores, CoreClass::Efficiency);
    let cache_summary = if patterns == 0 {
        "unavailable".to_owned()
    } else {
        decimal_text(patterns as u64)
    };
    note(
        notes,
        EvidenceSource::MaximumFrequency,
        &efficiency,
        "frequency ratio ".to_owned().concat(ratio.as_str()).concat("; SMT widths low=").concat(
            decimal_text(low_width as u64).as_str(),
        ).concat(", high=").concat(decimal_text(high_width as u64).as_str()).concat(
            "; cache patterns=",
        ).concat(cache_summary.as_str()),
        "Two repeated, well-separated maximum-frequency groups were corroborated by a consistent SMT-width distinction. This remains heuristic.".to_owned(),
        EvidenceStrength::Moderate,
        EvidenceKind::Classification,
    );
    Some(
        Classification {
            classification: TopologyClass::Hybrid,
            confidence: policy.heuristic_hybrid_confidence,
            evidence: copy_evidence(notes),
        },
    )
}

pub(crate) fn copy_evidence(items: &Vec<DetectionEvidence>) -> (out: Vec<DetectionEvidence>)
    ensures
        views(out@) == views(items@),
{
    broadcast use group_views;

    let mut out: Vec<DetectionEvidence> = Vec::new();
    let mut i: usize = 0;
    assert(views(out@) =~= views(items@).take(0));
    while i < items.len()
        invariant
            i <= items@.len(),
            views(out@) == views(items@).take(i as int),
        decreases items.len() - i,
    {
        assert(views(items@).take(i + 1) =~= views(items@).take(i as int).push(items@[i as int]@));
        out.push(items[i].clone());
        i += 1;
    }
    assert(views(items@).take(items@.len() as int) =~= views(items@));
    out
}

pub open spec fn all_exact(cores: Seq<GroupedCoreView>) -> bool {
    forall|i: int| 0 <= i < cores.len() ==> (#[trigger] cores[i]).exact_grouping
}

/// Explicit metadata exists and does not cover every core.
pub open spec fn metadata_unusable(cores: Seq<GroupedCoreView>) -> bool {
    any_metadata(cores) && exists|i: int|
        0 <= i < cores.len() && !(#[trigger] cores[i]).complete_explicit_type
}

/// Classification where neither metadata nor frequencies decide.
pub open spec fn fallback_classification(
    online: Seq<u32>,
    cores: Seq<GroupedCoreView>,
) -> ClassifiedView {
    let exact = all_exact(cores);
    let threads = widths(cores);
    if exact && threads.len() == 1 && !metadata_unusable(cores) {
        ClassifiedView {
            cores: cores.map_values(
                |core: GroupedCoreView| classified(core, CoreClass::Uniform, Single { bits: UNIFORM_CONFIDENCE }),
            ),
            classification: TopologyClass::Uniform,
            confidence: Single { bits: UNIFORM_CONFIDENCE },
            evidence: seq![
                evidence(
                    EvidenceSource::Classifier,
                    online,
                    decimal(cores.len()) + " physical cores; SMT widths "@ + sizes_text(threads),
                    "All visible physical cores have an equivalent, consistently grouped topology and no corroborated hybrid distinction was found."@,
                    EvidenceStrength::Strong,
                    EvidenceKind::Classification,
                ),
            ],
        }
    } else {
        ClassifiedView {
            cores: cores.map_values(
                |core: GroupedCoreView| classified(core, CoreClass::Unknown, Single { bits: UNKNOWN_CONFIDENCE }),
            ),
            classification: TopologyClass::Unknown,
            confidence: Single { bits: UNKNOWN_CONFIDENCE },
            evidence: seq![
                evidence(
                    EvidenceSource::Classifier,
                    online,
                    "exact_grouping="@ + (if exact {
                        "true"@
                    } else {
                        "false"@
                    }) + ", SMT widths="@ + sizes_text(threads) + ", physical_cores="@ + decimal(
                        cores.len(),
                    ),
                    "Available metadata is incomplete, inconsistent, or shows uncorroborated asymmetry; no efficiency CPU set was produced."@,
                    EvidenceStrength::Moderate,
                    EvidenceKind::Warning,
                ),
            ],
        }
    }
}

/// The classification of cores: by explicit metadata, else by frequency
/// clusters, else by what their grouping shows.
pub open spec fn classification(
    online: Seq<u32>,
    cores: Seq<GroupedCoreView>,
    policy: DetectorPolicy,
) -> ClassifiedView {
    match explicit_classification(cores, policy) {
        Some(explicit) => explicit,
        None => {
            let partial = partial_metadata_notes(cores);
            let (found, notes) = heuristic_classification(cores, policy);
            match found {
                Some(heuristic) => ClassifiedView {
                    evidence: partial + heuristic.evidence,
                    ..heuristic
                },
                None => {
                    let fallback = fallback_classification(online, cores);
                    ClassifiedView { evidence: partial + notes + fallback.evidence, ..fallback }
                },
            }
        },
    }
}

fn are_all_exact(cores: &Vec<GroupedCore>) -> (out: bool)
    ensures
        out == all_exact(views(cores@)),
{
    let ghost all = views(cores@);
    let mut i: usize = 0;
    while i < cores.len()
        invariant
            i <= cores@.len(),
            all == views(cores@),
            forall|k: int| 0 <= k < i ==> (#[trigger] all[k]).exact_grouping,
        decreases cores.len() - i,
    {
        assert(all[i as int] == cores@[i as int]@);
        if !cores[i].exact_grouping {
            assert(!all[i as int].exact_grouping);
            return false;
        }
        i += 1;
    }
    true
}

fn is_metadata_unusable(cores: &Vec<GroupedCore>) -> (out: bool)
    ensures
        out == metadata_unusable(views(cores@)),
{
    let ghost all = views(cores@);
    if !has_metadata(cores) {
        return false;
    }
    let mut i: usize = 0;
    while i < cores.len()
        invariant
            i <= cores@.len(),
            all == views(cores@),
            any_metadata(all),
            forall|k: int| 0 <= k < i ==> (#[trigger] all[k]).complete_explicit_type,
        decreases cores.len() - i,
    {
        assert(all[i as int] == cores@[i as int]@);
        if !cores[i].complete_explicit_type {
            assert(!all[i as int].complete_explicit_type);
            return true;
        }
        i += 1;
    }
    false
}

fn set_all_cores(cores: &mut Vec<GroupedCore>, class: CoreClass, confidence: Single)
    ensures
        views(final(cores)@) == views(old(cores)@).map_values(
            |core: GroupedCoreView| classified(core, class, confidence),
        ),
{
    let ghost before = views(cores@);
    let ghost after = before.map_values(
        |core: GroupedCoreView| classified(core, class, confidence),
    );
    let mut i: usize = 0;
    while i < cores.len()
        invariant
            i <= cores@.len(),
            cores@.len() == before.len(),
            after == before.map_values(
                |core: GroupedCoreView| classified(core, class, confidence),
            ),
            forall|k: int| 0 <= k < i ==> (#[trigger] cores@[k])@ == after[k],
            forall|k: int| i <= k < before.len() ==> (#[trigger] cores@[k])@ == before[k],
        decreases cores.len() - i,
    {
        set_core(&mut cores[i], class, confidence);
        i += 1;
    }
    assert(views(cores@) =~= after);
}

fn set_core(core: &mut GroupedCore, class: CoreClass, confidence: Single)
    ensures
        final(core)@ == classified(old(core)@, class, confidence),
{
    core.output.core_class = class;
    core.output.confidence = confidence;
}

/// Classify the cores of a topology.
pub fn classify(
    online: &Vec<u32>,
    cores: &mut Vec<GroupedCore>,
    policy: &DetectorPolicy,
) -> (out: Classification)
    ensures
        ({
            let expected = classification(online@, views(old(cores)@), *policy);
            &&& views(final(cores)@) == expected.cores
            &&& out.classification == expected.classification
            &&& out.confidence == expected.confidence
            &&& views(out.evidence@) == expected.evidence
        }),
{
    broadcast use group_views;

    let mut notes: Vec<DetectionEvidence> = Vec::new();
    match classify_explicit(cores, policy, &mut notes) {
        Some(explicit) => {
            return explicit;
        },
        None => {},
    }
    match classify_heuristic(cores, policy, &mut notes) {
        Some(heuristic) => {
            return heuristic;
        },
        None => {},
    }
    let exact = are_all_exact(cores);
    let threads = all_widths(cores);
    let count = decimal_text(cores.len() as u64);
    if exact && threads.len() == 1 && !is_metadata_unusable(cores) {
        set_all_cores(cores, CoreClass::Uniform, Single { bits: UNIFORM_CONFIDENCE });
        note(
            &mut notes,
            EvidenceSource::Classifier,
            online,
            count.concat(" physical cores; SMT widths ").concat(format_sizes(&threads).as_str()),
            "All visible physical cores have an equivalent, consistently grouped topology and no corroborated hybrid distinction was found.".to_owned(),
            EvidenceStrength::Strong,
            EvidenceKind::Classification,
        );
        Classification {
            classification: TopologyClass::Uniform,
            confidence: Single { bits: UNIFORM_CONFIDENCE },
            evidence: notes,
        }
    } else {
        set_all_cores(cores, CoreClass::Unknown, Single { bits: UNKNOWN_CONFIDENCE });
        note(
            &mut notes,
            EvidenceSource::Classifier,
            online,
            "exact_grouping=".to_owned().concat(
                if exact {
                    "true"
                } else {
                    "false"
                },
            ).concat(", SMT widths=").concat(format_sizes(&threads).as_str()).concat(
                ", physical_cores=",
            ).concat(count.as_str()),
            "Available metadata is incomplete, inconsistent, or shows uncorroborated asymmetry; no efficiency CPU set was produced.".to_owned(),
            EvidenceStrength::Moderate,
            EvidenceKind::Warning,
        );
        Classification {
            classification: TopologyClass::Unknown,
            confidence: Single { bits: UNKNOWN_CONFIDENCE },
            evidence: notes,
        }
    }
}

/// What the cache layouts show, where any is known.
pub open spec fn cache_summary(cores: Seq<GroupedCoreView>) -> Seq<EvidenceView> {
    let patterns = cache_patterns(cores).len();
    if patterns == 0 {
        Seq::empty()
    } else {
        seq![
            evidence(
                EvidenceSource::CacheTopology,
                sorted_set(flat_cpus(cores)),
                decimal(patterns) + " complete cache-layout pattern(s)"@,
                if patterns > 1 {
                    "Consistent cache-layout differences were observed between physical cores; cache layout is supporting evidence, not standalone proof of core type."@
                } else {
                    "Available cache metadata showed one complete layout pattern across physical cores."@
                },
                EvidenceStrength::Weak,
                EvidenceKind::Observation,
            ),
        ]
    }
}

fn summarize_cache_evidence(cores: &Vec<GroupedCore>, notes: &mut Vec<DetectionEvidence>)
    ensures
        views(final(notes)@) == views(old(notes)@) + cache_summary(views(cores@)),
{
    let patterns: usize = count_cache_patterns(cores);
    if patterns == 0 {
        return;
    }
    let cpus = all_core_cpus(cores);
    note(
        notes,
        EvidenceSource::CacheTopology,
        &cpus,
        decimal_text(patterns as u64).concat(" complete cache-layout pattern(s)"),
        if patterns > 1 {
            "Consistent cache-layout differences were observed between physical cores; cache layout is supporting evidence, not standalone proof of core type.".to_owned()
        } else {
            "Available cache metadata showed one complete layout pattern across physical cores.".to_owned()
        },
        EvidenceStrength::Weak,
        EvidenceKind::Observation,
    );
}

/// Lexicographic order of CPU lists.
pub open spec fn cpus_before(a: Seq<u32>, b: Seq<u32>) -> bool
    decreases a.len(),
{
    if b.len() == 0 {
        false
    } else if a.len() == 0 {
        true
    } else if a[0] != b[0] {
        a[0] < b[0]
    } else {
        cpus_before(a.drop_first(), b.drop_first())
    }
}

fn are_cpus_before(a: &Vec<u32>, b: &Vec<u32>) -> (before: bool)
    ensures
        before == cpus_before(a@, b@),
{
    let mut i: usize = 0;
    assert(a@.skip(0) =~= a@);
    assert(b@.skip(0) =~= b@);
    while i < a.len() && i < b.len() && a[i] == b[i]
        invariant
            i <= a@.len(),
            i <= b@.len(),
            cpus_before(a@, b@) == cpus_before(a@.skip(i as int), b@.skip(i as int)),
        decreases a.len() - i,
    {
        assert(a@.skip(i as int).drop_first() =~= a@.skip(i + 1));
        assert(b@.skip(i as int).drop_first() =~= b@.skip(i + 1));
        i += 1;
    }
    if i >= b.len() {
        false
    } else if i >= a.len() {
        true
    } else {
        a[i] < b[i]
    }
}

pub open spec fn id_rank(id: Option<u32>) -> u32 {
    match id {
        Some(n) => n,
        None => u32::MAX,
    }
}

fn rank(id: Option<u32>) -> (out: u32)
    ensures
        out == id_rank(id),
{
    match id {
        Some(n) => n,
        None => 0xFFFF_FFFF,
    }
}

/// The order of physical cores: by package, by core, by CPUs; an unknown
/// identifier comes last.
pub open spec fn core_before() -> spec_fn(PhysicalCoreView, PhysicalCoreView) -> bool {
    |a: PhysicalCoreView, b: PhysicalCoreView|
        if id_rank(a.package_id) != id_rank(b.package_id) {
            id_rank(a.package_id) < id_rank(b.package_id)
        } else if id_rank(a.core_id) != id_rank(b.core_id) {
            id_rank(a.core_id) < id_rank(b.core_id)
        } else {
            cpus_before(a.logical_cpus, b.logical_cpus)
        }
}

fn is_core_before(a: &PhysicalCore, b: &PhysicalCore) -> (out: bool)
    ensures
        out == core_before()(a@, b@),
{
    if rank(a.package_id) != rank(b.package_id) {
        rank(a.package_id) < rank(b.package_id)
    } else if rank(a.core_id) != rank(b.core_id) {
        rank(a.core_id) < rank(b.core_id)
    } else {
        are_cpus_before(&a.logical_cpus, &b.logical_cpus)
    }
}

fn sort_cores(cores: Vec<PhysicalCore>) -> (out: Vec<PhysicalCore>)
    ensures
        views(out@) == stable_sorted(views(cores@), core_before()),
{
    let ghost before = |a: PhysicalCore, b: PhysicalCore| core_before()(a@, b@);
    proof {
        crate::order::lemma_stable_sorted_map(
            cores@,
            |core: PhysicalCore| core@,
            before,
            core_before(),
        );
    }
    stable_sort(cores, is_core_before, Ghost(before))
}

/// All that is noted in the records of the CPUs.
pub open spec fn record_notes(records: Seq<super::sysfs::CpuRecordView>) -> Seq<EvidenceView>
    decreases records.len(),
{
    if records.len() == 0 {
        Seq::empty()
    } else {
        record_notes(records.drop_last()) + records.last().evidence
    }
}

/// The topology that a snapshot shows.
pub open spec fn topology(snapshot: SysfsSnapshotView, policy: DetectorPolicy) -> CpuTopologyView {
    let grouped = core_groups(snapshot);
    let result = classification(snapshot.online_cpus, grouped, policy);
    let cores = stable_sorted(outputs(result.cores), core_before());
    let hybrid = result.classification == TopologyClass::Hybrid;
    CpuTopologyView {
        online_cpus: snapshot.online_cpus,
        physical_cores: cores,
        performance_cpus: if hybrid {
            sorted_set(class_cpus(cores, CoreClass::Performance))
        } else {
            Seq::empty()
        },
        efficiency_cpus: if hybrid {
            sorted_set(class_cpus(cores, CoreClass::Efficiency))
        } else {
            Seq::empty()
        },
        classification: result.classification,
        confidence: bounded_confidence(result.confidence),
        evidence: snapshot.evidence + record_notes(snapshot.records) + cache_summary(result.cores)
            + result.evidence,
    }
}

fn sorted_class_cpus(cores: &Vec<PhysicalCore>, class: CoreClass) -> (out: Vec<u32>)
    ensures
        out@ == sorted_set(class_cpus(views(cores@), class)),
{
    let ghost all = views(cores@);
    let mut cpus: Vec<u32> = Vec::new();
    let mut i: usize = 0;
    assert(all.take(0) =~= Seq::empty());
    while i < cores.len()
        invariant
            i <= cores@.len(),
            all == views(cores@),
            cpus@ == class_cpus(all.take(i as int), class),
        decreases cores.len() - i,
    {
        assert(all.take(i + 1).drop_last() =~= all.take(i as int));
        assert(all.take(i + 1).last() == cores@[i as int]@);
        if cores[i].core_class == class {
            extend_numbers(&mut cpus, &cores[i].logical_cpus);
        }
        i += 1;
    }
    assert(all.take(all.len() as int) =~= all);
    sorted_unique(&cpus)
}

fn extend_evidence(notes: &mut Vec<DetectionEvidence>, more: &Vec<DetectionEvidence>)
    ensures
        views(final(notes)@) == views(old(notes)@) + views(more@),
{
    broadcast use group_views;

    let mut copy = copy_evidence(more);
    notes.append(&mut copy);
}

fn take_outputs(grouped: Vec<GroupedCore>) -> (out: Vec<PhysicalCore>)
    ensures
        views(out@) == outputs(views(grouped@)),
{
    broadcast use group_views;

    let ghost all = outputs(views(grouped@));
    let mut rest = grouped;
    let mut out: Vec<PhysicalCore> = Vec::new();
    let ghost mut done: int = 0;
    assert(grouped@.skip(0) =~= grouped@);
    assert(all.take(0) =~= Seq::empty());
    while rest.len() > 0
        invariant
            0 <= done <= grouped@.len(),
            all == outputs(views(grouped@)),
            rest@ == grouped@.skip(done),
            views(out@) == all.take(done),
        decreases rest.len(),
    {
        let core = rest.remove(0);
        proof {
            assert(core == grouped@[done]);
            assert(all.take(done + 1) =~= all.take(done).push(core.output@));
            assert(grouped@.skip(done).remove(0) =~= grouped@.skip(done + 1));
            done = done + 1;
        }
        out.push(core.output);
    }
    assert(all.take(all.len() as int) =~= all);
    out
}

/// Read-only Linux CPU topology detector with a configurable sysfs root.
#[derive(Debug)]
pub struct CpuTopologyDetector {
    pub sysfs_root: UnixPath,
    pub policy: DetectorPolicy,
}

/// The CPU directory of a running Linux system.
pub open spec fn system_sysfs_root() -> Seq<char> {
    "/sys/devices/system/cpu"@
}

impl Default for CpuTopologyDetector {
    fn default() -> (out: Self)
        ensures
            out.sysfs_root@ == vstd::utf8::encode_utf8(system_sysfs_root()),
            out.policy == default_policy(),
    {
        CpuTopologyDetector::new(UnixPath::from_text("/sys/devices/system/cpu"))
    }
}

/// What detection gives for the files below a root.
pub open spec fn detection(
    status: RootStatus,
    tree: FileTreeView,
    root: Seq<u8>,
    policy: DetectorPolicy,
) -> Result<CpuTopologyView, DetectorErrorView> {
    match sysfs_snapshot(status, tree, root) {
        Ok(snapshot) => Ok(topology(snapshot, policy)),
        Err(e) => Err(e),
    }
}

impl CpuTopologyDetector {
    /// Create a detector which reads from `sysfs_root`.
    pub fn new(sysfs_root: UnixPath) -> (out: Self)
        ensures
            out.sysfs_root == sysfs_root,
            out.policy == default_policy(),
    {
        CpuTopologyDetector { sysfs_root, policy: DetectorPolicy::default() }
    }

    /// Create a detector using the production Linux CPU sysfs root.
    pub fn system() -> (out: Self)
        ensures
            out.sysfs_root@ == vstd::utf8::encode_utf8(system_sysfs_root()),
            out.policy == default_policy(),
    {
        CpuTopologyDetector::default()
    }

    /// Replace the classification thresholds.
    ///
    /// Values are normalized so callers can make detection stricter, but
    /// cannot weaken the built-in separation and repetition safeguards.
    pub fn with_policy(self, policy: DetectorPolicy) -> (out: Self)
        ensures
            out.sysfs_root == self.sysfs_root,
            out.policy == conservative_policy(policy),
    {
        CpuTopologyDetector { sysfs_root: self.sysfs_root, policy: policy.conservative() }
    }

    /// Return the configured CPU sysfs root.
    pub fn sysfs_root(&self) -> (out: &UnixPath)
        ensures
            *out == self.sysfs_root,
    {
        &self.sysfs_root
    }

    /// Inspect online CPUs and return a deterministic topology snapshot.
    ///
    /// Fails only when the sysfs root or required online CPU data cannot be
    /// read. Optional metadata problems become evidence.
    pub fn detect(&self, status: &RootStatus, tree: &FileTree) -> (out: Result<
        CpuTopology,
        DetectorError,
    >)
        ensures
            match out {
                Ok(found) => detection(*status, tree@, self.sysfs_root@, self.policy) == Ok::<
                    CpuTopologyView,
                    DetectorErrorView,
                >(found@),
                Err(e) => detection(*status, tree@, self.sysfs_root@, self.policy) == Err::<
                    CpuTopologyView,
                    DetectorErrorView,
                >(e@),
            },
    {
        let source = SysfsCpuSource::new(self.sysfs_root.clone());
        match source.collect(status, tree) {
            Ok(snapshot) => Ok(detect_in(snapshot, &self.policy)),
            Err(e) => Err(e),
        }
    }
}

/// What was noted of a system as a whole and of each of its CPUs.
fn collect_notes(snapshot: &SysfsSnapshot) -> (notes: Vec<DetectionEvidence>)
    ensures
        views(notes@) == snapshot@.evidence + record_notes(snapshot@.records),
{
    let ghost view = snapshot@;
    let mut notes = copy_evidence(&snapshot.evidence);
    let mut i: usize = 0;
    assert(view.records.take(0) =~= Seq::empty());
    assert(views(notes@) =~= view.evidence + record_notes(view.records.take(0)));
    while i < snapshot.records.len()
        invariant
            i <= snapshot.records@.len(),
            view == snapshot@,
            views(notes@) == view.evidence + record_notes(view.records.take(i as int)),
        decreases snapshot.records.len() - i,
    {
        assert(view.records.take(i + 1).drop_last() =~= view.records.take(i as int));
        assert(view.records.take(i + 1).last() == snapshot.records@[i as int]@);
        extend_evidence(&mut notes, &snapshot.records[i].evidence);
        i += 1;
        assert(views(notes@) =~= view.evidence + record_notes(view.records.take(i as int)));
    }
    assert(view.records.take(view.records.len() as int) =~= view.records);
    notes
}

/// The topology that a snapshot shows.
#[verifier::spinoff_prover]
#[verifier::rlimit(40)]
pub fn detect_in(snapshot: SysfsSnapshot, policy: &DetectorPolicy) -> (out: CpuTopology)
    requires
        snapshot@.well_formed(),
    ensures
        out@ == topology(snapshot@, *policy),
{
    let mut grouped = group_physical_cores(&snapshot);
    let result = classify(&snapshot.online_cpus, &mut grouped, policy);
    let mut notes = collect_notes(&snapshot);
    summarize_cache_evidence(&grouped, &mut notes);
    extend_evidence(&mut notes, &result.evidence);
    let physical_cores = sort_cores(take_outputs(grouped));
    let hybrid = result.classification == TopologyClass::Hybrid;
    let performance_cpus = if hybrid {
        sorted_class_cpus(&physical_cores, CoreClass::Performance)
    } else {
        Vec::new()
    };
    let efficiency_cpus = if hybrid {
        sorted_class_cpus(&physical_cores, CoreClass::Efficiency)
    } else {
        Vec::new()
    };
    CpuTopology {
        online_cpus: snapshot.online_cpus,
        physical_cores,
        performance_cpus,
        efficiency_cpus,
        classification: result.classification,
        confidence: clamp_confidence(result.confidence),
        evidence: notes,
    }
}

} // verus!
