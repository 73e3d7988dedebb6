//! Diagnostic checks and their report.
use vstd::prelude::*;

use crate::text::{same_text, views};

verus! {

/// Severity of one independent diagnostic condition.
#[derive(Clone, Copy, Debug, PartialEq, Eq, Structural)]
pub enum DoctorStatus {
    /// Condition is ready for its supported use.
    Ready,
    /// Action may be unnecessary or may need user/session attention.
    Warning,
    /// A core launch requirement is currently invalid or unavailable.
    Error,
}

impl DoctorStatus {
    /// How severe the status is.
    pub open spec fn rank(self) -> int {
        match self {
            DoctorStatus::Ready => 0,
            DoctorStatus::Warning => 1,
            DoctorStatus::Error => 2,
        }
    }

    /// The more severe of two.
    pub fn worse(self, other: DoctorStatus) -> (out: DoctorStatus)
        ensures
            out == if self.rank() < other.rank() {
                other
            } else {
                self
            },
    {
        match (self, other) {
            (DoctorStatus::Error, _) => DoctorStatus::Error,
            (_, DoctorStatus::Error) => DoctorStatus::Error,
            (DoctorStatus::Warning, _) => DoctorStatus::Warning,
            (_, DoctorStatus::Warning) => DoctorStatus::Warning,
            _ => DoctorStatus::Ready,
        }
    }
}

/// One supporting value of a check.
#[derive(Debug, PartialEq, Eq)]
pub struct DoctorDetail {
    pub key: String,
    pub value: String,
}

impl View for DoctorDetail {
    type V = (Seq<char>, Seq<char>);

    open spec fn view(&self) -> (Seq<char>, Seq<char>) {
        (self.key@, self.value@)
    }
}

/// One stable, structured doctor check.
#[derive(Debug, PartialEq, Eq)]
pub struct DoctorCheck {
    /// Stable machine-readable check identifier.
    pub id: String,
    /// Independent severity.
    pub status: DoctorStatus,
    /// Concise human diagnostic.
    pub summary: String,
    /// Supporting values, in the order of their keys.
    pub details: Vec<DoctorDetail>,
}

/// A check by its contents.
pub struct CheckView {
    pub id: Seq<char>,
    pub status: DoctorStatus,
    pub summary: Seq<char>,
    pub details: Seq<(Seq<char>, Seq<char>)>,
}

impl View for DoctorCheck {
    type V = CheckView;

    open spec fn view(&self) -> CheckView {
        CheckView {
            id: self.id@,
            status: self.status,
            summary: self.summary@,
            details: views(self.details@),
        }
    }
}

/// The value that a check has for a key.
pub open spec fn detail_value(details: Seq<(Seq<char>, Seq<char>)>, key: Seq<char>) -> Option<
    Seq<char>,
>
    decreases details.len(),
{
    if details.len() == 0 {
        None
    } else if details[0].0 == key {
        Some(details[0].1)
    } else {
        detail_value(details.drop_first(), key)
    }
}

impl DoctorCheck {
    /// The value that the check has for a key.
    pub fn detail(&self, key: &str) -> (out: Option<&String>)
        ensures
            match detail_value(self@.details, key@) {
                Some(value) => out is Some && out->0@ == value,
                None => out is None,
            },
    {
        let ghost all = views(self.details@);
        let mut i: usize = 0;
        assert(all.skip(0) =~= all);
        while i < self.details.len()
            invariant
                i <= self.details@.len(),
                all == views(self.details@),
                detail_value(all, key@) == detail_value(all.skip(i as int), key@),
            decreases self.details.len() - i,
        {
            assert(all.skip(i as int)[0] == self.details@[i as int]@);
            assert(all.skip(i as int).drop_first() =~= all.skip(i + 1));
            if same_text(self.details[i].key.as_str(), key) {
                return Some(&self.details[i].value);
            }
            i += 1;
        }
        None
    }
}

/// Complete read-only diagnostic result.
#[derive(Debug, PartialEq, Eq)]
pub struct DoctorReport {
    /// Worst check status.
    pub status: DoctorStatus,
    /// Checks in stable pipeline order.
    pub checks: Vec<DoctorCheck>,
}

/// A report by its contents.
pub struct DoctorReportView {
    pub status: DoctorStatus,
    pub checks: Seq<CheckView>,
}

impl View for DoctorReport {
    type V = DoctorReportView;

    open spec fn view(&self) -> DoctorReportView {
        DoctorReportView { status: self.status, checks: views(self.checks@) }
    }
}

/// The most severe status of some checks.
pub open spec fn worst(checks: Seq<CheckView>) -> DoctorStatus
    decreases checks.len(),
{
    if checks.len() == 0 {
        DoctorStatus::Ready
    } else {
        let front = worst(checks.drop_last());
        if front.rank() < checks.last().status.rank() {
            checks.last().status
        } else {
            front
        }
    }
}

/// The report of some checks.
pub open spec fn report_of(checks: Seq<CheckView>) -> DoctorReportView {
    DoctorReportView { status: worst(checks), checks }
}

impl DoctorReport {
    /// The report of some checks.
    pub fn new(checks: Vec<DoctorCheck>) -> (out: DoctorReport)
        ensures
            out@ == report_of(views(checks@)),
    {
        let ghost all = views(checks@);
        let mut status = DoctorStatus::Ready;
        let mut i: usize = 0;
        assert(all.take(0) =~= Seq::empty());
        while i < checks.len()
            invariant
                i <= checks@.len(),
                all == views(checks@),
                status == worst(all.take(i as int)),
            decreases checks.len() - i,
        {
            assert(all.take(i + 1).drop_last() =~= all.take(i as int));
            assert(all.take(i + 1).last() == checks@[i as int]@);
            status = status.worse(checks[i].status);
            i += 1;
        }
        assert(all.take(all.len() as int) =~= all);
        DoctorReport { status, checks }
    }

    /// Whether any check found a condition that blocks current core operation.
    pub fn has_errors(&self) -> (out: bool)
        ensures
            out == (self.status == DoctorStatus::Error),
    {
        self.status == DoctorStatus::Error
    }
}

/// A report is an error exactly where one of its checks is, and in order
/// exactly where all of them are.
pub proof fn report_status_is_worst(checks: Seq<CheckView>)
    ensures
        worst(checks) == DoctorStatus::Error <==> exists|k: int|
            0 <= k < checks.len() && (#[trigger] checks[k]).status == DoctorStatus::Error,
        worst(checks) == DoctorStatus::Ready <==> forall|k: int|
            0 <= k < checks.len() ==> (#[trigger] checks[k]).status == DoctorStatus::Ready,
        forall|k: int| 0 <= k < checks.len() ==> (#[trigger] checks[k]).status.rank() <= worst(
            checks,
        ).rank(),
    decreases checks.len(),
{
    if checks.len() > 0 {
        let front = checks.drop_last();
        report_status_is_worst(front);
        assert(checks[checks.len() - 1] == checks.last());
        assert forall|k: int| 0 <= k < checks.len() - 1 implies #[trigger] checks[k]
            == front[k] by {}
        if worst(front) == DoctorStatus::Error {
            let k = choose|k: int|
                0 <= k < front.len() && (#[trigger] front[k]).status == DoctorStatus::Error;
            assert(checks[k].status == DoctorStatus::Error);
        }
        if exists|k: int|
            0 <= k < checks.len() && (#[trigger] checks[k]).status == DoctorStatus::Error {
            let k = choose|k: int|
                0 <= k < checks.len() && (#[trigger] checks[k]).status == DoctorStatus::Error;
            if k < front.len() {
                assert(front[k].status == DoctorStatus::Error);
            }
        }
        if forall|k: int| 0 <= k < checks.len() ==> (#[trigger] checks[k]).status
            == DoctorStatus::Ready {
            assert forall|k: int| 0 <= k < front.len() implies (#[trigger] front[k]).status
                == DoctorStatus::Ready by {
                assert(checks[k].status == DoctorStatus::Ready);
            }
            assert(checks[checks.len() - 1].status == DoctorStatus::Ready);
        }
        assert forall|k: int| 0 <= k < checks.len() implies (#[trigger] checks[k]).status.rank()
            <= worst(checks).rank() by {
            if k < front.len() {
                assert(front[k].status.rank() <= worst(front).rank());
            }
        }
    }
}

} // verus!
