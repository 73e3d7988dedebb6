//! Observations that explain a topology.
use vstd::prelude::*;

use crate::order::{ascending, sorted_set, sorted_unique};

verus! {

/// The sysfs or detector component which produced an observation.
#[derive(Clone, Copy, Debug, PartialEq, Eq, Structural)]
pub enum EvidenceSource {
    /// Global or fallback active CPU resolution.
    OnlineCpuList,
    /// One logical CPU's hotplug state.
    PerCpuOnline,
    /// Package and physical-core identifiers.
    TopologyIds,
    /// `core_cpus_list` or `thread_siblings_list`.
    ThreadSiblings,
    /// Explicit `topology/core_type`.
    CoreType,
    /// `cpuinfo_max_freq` or `scaling_max_freq`.
    MaximumFrequency,
    /// Per-CPU cache index metadata.
    CacheTopology,
    /// A conclusion produced by the classifier.
    Classifier,
}

/// How an evidence item contributes to the result.
#[derive(Clone, Copy, Debug, PartialEq, Eq, Structural)]
pub enum EvidenceKind {
    /// A neutral input observation.
    Observation,
    /// Evidence which directly explains a class assignment.
    Classification,
    /// Incomplete or unsupported optional data.
    Warning,
    /// Two inputs which cannot both describe the same topology.
    Contradiction,
}

/// Qualitative reliability of a piece of evidence.
#[derive(Clone, Copy, Debug, PartialEq, Eq, PartialOrd, Ord, Structural)]
pub enum EvidenceStrength {
    /// Useful context which cannot classify a core alone.
    Weak,
    /// Repeatable but indirect evidence.
    Moderate,
    /// Reliable topology evidence.
    Strong,
    /// Directly reported kernel or platform metadata.
    Explicit,
}

/// A structured, human-readable observation used by topology detection.
#[derive(Debug, PartialEq, Eq)]
pub struct DetectionEvidence {
    /// Component which produced this item.
    pub source: EvidenceSource,
    /// Sorted logical CPUs to which the item applies.
    pub affected_cpus: Vec<u32>,
    /// Stable textual representation of the raw or summarized observation.
    pub observed_value: String,
    /// Human-readable meaning assigned to the observation.
    pub interpretation: String,
    /// Qualitative reliability.
    pub strength: EvidenceStrength,
    /// How the evidence contributes to the result.
    pub kind: EvidenceKind,
}

/// An observation by its contents.
pub struct EvidenceView {
    pub source: EvidenceSource,
    pub affected_cpus: Seq<u32>,
    pub observed_value: Seq<char>,
    pub interpretation: Seq<char>,
    pub strength: EvidenceStrength,
    pub kind: EvidenceKind,
}

impl View for DetectionEvidence {
    type V = EvidenceView;

    open spec fn view(&self) -> EvidenceView {
        EvidenceView {
            source: self.source,
            affected_cpus: self.affected_cpus@,
            observed_value: self.observed_value@,
            interpretation: self.interpretation@,
            strength: self.strength,
            kind: self.kind,
        }
    }
}

impl Clone for DetectionEvidence {
    fn clone(&self) -> (out: Self)
        ensures
            out@ == self@,
    {
        DetectionEvidence {
            source: self.source,
            affected_cpus: crate::order::copy_numbers(&self.affected_cpus),
            observed_value: self.observed_value.clone(),
            interpretation: self.interpretation.clone(),
            strength: self.strength,
            kind: self.kind,
        }
    }
}

/// An observation about the given CPUs, which it lists once each and in order.
pub open spec fn evidence(
    source: EvidenceSource,
    cpus: Seq<u32>,
    observed: Seq<char>,
    interpretation: Seq<char>,
    strength: EvidenceStrength,
    kind: EvidenceKind,
) -> EvidenceView {
    EvidenceView {
        source,
        affected_cpus: sorted_set(cpus),
        observed_value: observed,
        interpretation,
        strength,
        kind,
    }
}

impl DetectionEvidence {
    pub(crate) fn new(
        source: EvidenceSource,
        affected_cpus: &Vec<u32>,
        observed_value: String,
        interpretation: String,
        strength: EvidenceStrength,
        kind: EvidenceKind,
    ) -> (out: Self)
        ensures
            out@ == evidence(
                source,
                affected_cpus@,
                observed_value@,
                interpretation@,
                strength,
                kind,
            ),
            ascending(out@.affected_cpus),
    {
        DetectionEvidence {
            source,
            affected_cpus: sorted_unique(affected_cpus),
            observed_value,
            interpretation,
            strength,
            kind,
        }
    }
}

} // verus!
