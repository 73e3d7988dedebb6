//! The detected topology and the errors of detection.
use vstd::prelude::*;
use vstd::string::StringExecFns;

use super::evidence::{DetectionEvidence, EvidenceView};
use super::parser::{cpu_list_error_text, CpuListErrorView, CpuListParseError};
use crate::float::Single;
use crate::path::{lossy_text, UnixPath};
use crate::text::views;

verus! {

/// Classification assigned to one physical core.
#[derive(Clone, Copy, Debug, PartialEq, Eq, Structural)]
pub enum CoreClass {
    /// A performance-oriented core in a confirmed hybrid topology.
    Performance,
    /// An efficiency-oriented core in a confirmed hybrid topology.
    Efficiency,
    /// A core in a topology with no corroborated heterogeneous distinction.
    Uniform,
    /// A core which could not be classified reliably.
    Unknown,
}

pub open spec fn core_class_text(class: CoreClass) -> Seq<char> {
    match class {
        CoreClass::Performance => "Performance"@,
        CoreClass::Efficiency => "Efficiency"@,
        CoreClass::Uniform => "Uniform"@,
        CoreClass::Unknown => "Unknown"@,
    }
}

impl CoreClass {
    /// The name shown to the user.
    pub fn name(self) -> (out: String)
        ensures
            out@ == core_class_text(self),
    {
        match self {
            CoreClass::Performance => "Performance".to_owned(),
            CoreClass::Efficiency => "Efficiency".to_owned(),
            CoreClass::Uniform => "Uniform".to_owned(),
            CoreClass::Unknown => "Unknown".to_owned(),
        }
    }
}

/// Classification of the complete active CPU topology.
#[derive(Clone, Copy, Debug, PartialEq, Eq, Structural)]
pub enum TopologyClass {
    /// Both performance and efficiency physical cores were identified.
    Hybrid,
    /// Visible physical cores appear equivalent.
    Uniform,
    /// Available metadata cannot support a safe overall classification.
    Unknown,
}

pub open spec fn topology_class_text(class: TopologyClass) -> Seq<char> {
    match class {
        TopologyClass::Hybrid => "Hybrid"@,
        TopologyClass::Uniform => "Uniform"@,
        TopologyClass::Unknown => "Unknown"@,
    }
}

impl TopologyClass {
    /// The name shown to the user.
    pub fn name(self) -> (out: String)
        ensures
            out@ == topology_class_text(self),
    {
        match self {
            TopologyClass::Hybrid => "Hybrid".to_owned(),
            TopologyClass::Uniform => "Uniform".to_owned(),
            TopologyClass::Unknown => "Unknown".to_owned(),
        }
    }
}

/// Logical CPUs which the detector believes belong to one physical core.
#[derive(Debug, PartialEq, Eq)]
pub struct PhysicalCore {
    /// Kernel physical package ID, when consistently available.
    pub package_id: Option<u32>,
    /// Kernel core ID, when consistently available.
    pub core_id: Option<u32>,
    /// Sorted active logical CPUs belonging to this physical core.
    pub logical_cpus: Vec<u32>,
    /// Conservative class assigned to this physical core.
    pub core_class: CoreClass,
    /// Detector confidence, from zero to one.
    pub confidence: Single,
    /// Grouping and classification evidence local to this core.
    pub evidence: Vec<DetectionEvidence>,
}

/// A physical core by its contents.
pub struct PhysicalCoreView {
    pub package_id: Option<u32>,
    pub core_id: Option<u32>,
    pub logical_cpus: Seq<u32>,
    pub core_class: CoreClass,
    pub confidence: Single,
    pub evidence: Seq<EvidenceView>,
}

impl View for PhysicalCore {
    type V = PhysicalCoreView;

    open spec fn view(&self) -> PhysicalCoreView {
        PhysicalCoreView {
            package_id: self.package_id,
            core_id: self.core_id,
            logical_cpus: self.logical_cpus@,
            core_class: self.core_class,
            confidence: self.confidence,
            evidence: views(self.evidence@),
        }
    }
}

/// A deterministic snapshot of the active Linux CPU topology.
#[derive(Debug, PartialEq, Eq)]
pub struct CpuTopology {
    /// Sorted online logical CPU IDs.
    pub online_cpus: Vec<u32>,
    /// Deterministically ordered active physical-core groups.
    pub physical_cores: Vec<PhysicalCore>,
    /// Sorted logical CPUs on confirmed performance cores.
    pub performance_cpus: Vec<u32>,
    /// Sorted logical CPUs on confirmed efficiency cores.
    pub efficiency_cpus: Vec<u32>,
    /// Overall conservative topology classification.
    pub classification: TopologyClass,
    /// Detector confidence, from zero to one.
    pub confidence: Single,
    /// Ordered observations, warnings, contradictions, and conclusions.
    pub evidence: Vec<DetectionEvidence>,
}

/// A topology by its contents.
pub struct CpuTopologyView {
    pub online_cpus: Seq<u32>,
    pub physical_cores: Seq<PhysicalCoreView>,
    pub performance_cpus: Seq<u32>,
    pub efficiency_cpus: Seq<u32>,
    pub classification: TopologyClass,
    pub confidence: Single,
    pub evidence: Seq<EvidenceView>,
}

impl View for CpuTopology {
    type V = CpuTopologyView;

    open spec fn view(&self) -> CpuTopologyView {
        CpuTopologyView {
            online_cpus: self.online_cpus@,
            physical_cores: views(self.physical_cores@),
            performance_cpus: self.performance_cpus@,
            efficiency_cpus: self.efficiency_cpus@,
            classification: self.classification,
            confidence: self.confidence,
            evidence: views(self.evidence@),
        }
    }
}

/// Fatal errors which prevent a usable topology snapshot.
///
/// Missing or malformed optional per-CPU metadata is represented as evidence
/// instead of an error.
#[allow(inconsistent_fields)]
#[derive(Debug, PartialEq, Eq)]
pub enum DetectorError {
    /// The configured root is missing, inaccessible, or not a directory.
    SysfsRootUnavailable { path: UnixPath, source: String },
    /// A required file exists but cannot be read.
    RequiredFileRead { path: UnixPath, source: String },
    /// The authoritative global or fallback CPU list is malformed.
    MalformedRequiredCpuList { path: UnixPath, source: CpuListParseError },
    /// No logical CPU could be found below the configured root.
    NoCpus { path: UnixPath },
}

/// A detection error by its contents.
#[allow(inconsistent_fields)]
pub enum DetectorErrorView {
    SysfsRootUnavailable { path: Seq<u8>, source: Seq<char> },
    RequiredFileRead { path: Seq<u8>, source: Seq<char> },
    MalformedRequiredCpuList { path: Seq<u8>, source: CpuListErrorView },
    NoCpus { path: Seq<u8> },
}

impl View for DetectorError {
    type V = DetectorErrorView;

    open spec fn view(&self) -> DetectorErrorView {
        match self {
            DetectorError::SysfsRootUnavailable { path, source } => {
                DetectorErrorView::SysfsRootUnavailable { path: path@, source: source@ }
            },
            DetectorError::RequiredFileRead { path, source } => {
                DetectorErrorView::RequiredFileRead { path: path@, source: source@ }
            },
            DetectorError::MalformedRequiredCpuList { path, source } => {
                DetectorErrorView::MalformedRequiredCpuList { path: path@, source: source@ }
            },
            DetectorError::NoCpus { path } => DetectorErrorView::NoCpus { path: path@ },
        }
    }
}

/// The message of a detection error.
pub open spec fn detector_error_text(e: DetectorErrorView) -> Seq<char> {
    match e {
        DetectorErrorView::SysfsRootUnavailable { path, source } => "CPU sysfs root "@ + lossy_text(
            path,
        ) + " is unavailable: "@ + source,
        DetectorErrorView::RequiredFileRead { path, source } => {
            "failed to read required CPU sysfs file "@ + lossy_text(path) + ": "@ + source
        },
        DetectorErrorView::MalformedRequiredCpuList { path, source } => "required CPU list in "@
            + lossy_text(path) + " is malformed: "@ + cpu_list_error_text(source),
        DetectorErrorView::NoCpus { path } => "CPU sysfs root "@ + lossy_text(path)
            + " contains no discoverable CPUs"@,
    }
}

impl DetectorError {
    /// The message shown to the user.
    pub fn message(&self) -> (out: String)
        ensures
            out@ == detector_error_text(self@),
    {
        match self {
            DetectorError::SysfsRootUnavailable { path, source } => {
                "CPU sysfs root ".to_owned().concat(path.display().as_str()).concat(
                    " is unavailable: ",
                ).concat(source.as_str())
            },
            DetectorError::RequiredFileRead { path, source } => {
                "failed to read required CPU sysfs file ".to_owned().concat(
                    path.display().as_str(),
                ).concat(": ").concat(source.as_str())
            },
            DetectorError::MalformedRequiredCpuList { path, source } => {
                "required CPU list in ".to_owned().concat(path.display().as_str()).concat(
                    " is malformed: ",
                ).concat(source.message().as_str())
            },
            DetectorError::NoCpus { path } => {
                "CPU sysfs root ".to_owned().concat(path.display().as_str()).concat(
                    " contains no discoverable CPUs",
                )
            },
        }
    }
}

} // verus!
