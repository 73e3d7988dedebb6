//! Discovered applications and the diagnostics of a scan.
use vstd::prelude::*;
use vstd::string::StringExecFns;

use crate::path::{lossy_text, UnixPath};
use crate::text::{decimal, decimal_text, optional_text_view, views};

verus! {

/// An installed desktop application which is safe to launch without a shell.
#[derive(Debug, PartialEq, Eq)]
pub struct DiscoveredApplication {
    /// Stable desktop-file ID, derived from the path below an `applications` directory.
    pub desktop_id: String,
    /// Locale-resolved display name.
    pub name: String,
    /// Locale-resolved generic name, when supplied.
    pub generic_name: Option<String>,
    /// Resolved executable path.
    pub executable: UnixPath,
    /// Static arguments after safe desktop field-code processing.
    pub arguments: Vec<String>,
    /// Icon name or path from the desktop entry.
    pub icon: Option<String>,
    /// Desktop file which produced this application.
    pub desktop_file: UnixPath,
    /// Whether the desktop entry requests a terminal.
    pub terminal: bool,
    /// Declared application categories, in source order with empty values removed.
    pub categories: Vec<String>,
    /// Window-manager startup class, when supplied.
    pub startup_wm_class: Option<String>,
    /// Zero-based source precedence; smaller values have higher priority.
    pub source_priority: usize,
    /// Whether the entry is normally omitted from desktop menus.
    pub no_display: bool,
}

/// An application by its contents.
pub struct ApplicationView {
    pub desktop_id: Seq<char>,
    pub name: Seq<char>,
    pub generic_name: Option<Seq<char>>,
    pub executable: Seq<u8>,
    pub arguments: Seq<Seq<char>>,
    pub icon: Option<Seq<char>>,
    pub desktop_file: Seq<u8>,
    pub terminal: bool,
    pub categories: Seq<Seq<char>>,
    pub startup_wm_class: Option<Seq<char>>,
    pub source_priority: int,
    pub no_display: bool,
}

impl View for DiscoveredApplication {
    type V = ApplicationView;

    open spec fn view(&self) -> ApplicationView {
        ApplicationView {
            desktop_id: self.desktop_id@,
            name: self.name@,
            generic_name: optional_text_view(self.generic_name),
            executable: self.executable@,
            arguments: views(self.arguments@),
            icon: optional_text_view(self.icon),
            desktop_file: self.desktop_file@,
            terminal: self.terminal,
            categories: views(self.categories@),
            startup_wm_class: optional_text_view(self.startup_wm_class),
            source_priority: self.source_priority as int,
            no_display: self.no_display,
        }
    }
}

/// Texts once more.
pub fn copy_strings(v: &Vec<String>) -> (out: Vec<String>)
    ensures
        out@ == v@,
{
    let out = v.clone();
    assert(out@ =~= v@);
    out
}

impl Clone for DiscoveredApplication {
    fn clone(&self) -> (out: Self)
        ensures
            out@ == self@,
    {
        DiscoveredApplication {
            desktop_id: self.desktop_id.clone(),
            name: self.name.clone(),
            generic_name: self.generic_name.clone(),
            executable: self.executable.clone(),
            arguments: copy_strings(&self.arguments),
            icon: self.icon.clone(),
            desktop_file: self.desktop_file.clone(),
            terminal: self.terminal,
            categories: copy_strings(&self.categories),
            startup_wm_class: self.startup_wm_class.clone(),
            source_priority: self.source_priority,
            no_display: self.no_display,
        }
    }
}

/// Broad category for a non-fatal discovery diagnostic.
#[derive(Clone, Copy, Debug, PartialEq, Eq, PartialOrd, Ord, Structural)]
pub enum DiscoveryWarningCategory {
    /// A directory or file could not be read.
    Io,
    /// A desktop file was not valid UTF-8.
    InvalidUtf8,
    /// Desktop-entry syntax or a supported value was malformed.
    DesktopEntry,
    /// The `Exec` command could not be parsed safely.
    Exec,
    /// The launch executable could not be resolved.
    Executable,
    /// `TryExec` was invalid or unavailable.
    TryExec,
    /// The entry was excluded by visibility or desktop-environment policy.
    Visibility,
    /// A higher-priority desktop-file ID replaced this entry.
    Overridden,
    /// An equivalent launch target was already present.
    Duplicate,
}

/// The place of a category in the order of diagnostics.
pub open spec fn category_rank(category: DiscoveryWarningCategory) -> int {
    match category {
        DiscoveryWarningCategory::Io => 0,
        DiscoveryWarningCategory::InvalidUtf8 => 1,
        DiscoveryWarningCategory::DesktopEntry => 2,
        DiscoveryWarningCategory::Exec => 3,
        DiscoveryWarningCategory::Executable => 4,
        DiscoveryWarningCategory::TryExec => 5,
        DiscoveryWarningCategory::Visibility => 6,
        DiscoveryWarningCategory::Overridden => 7,
        DiscoveryWarningCategory::Duplicate => 8,
    }
}

/// Severity of a discovery diagnostic.
#[derive(Clone, Copy, Debug, PartialEq, Eq, PartialOrd, Ord, Structural)]
pub enum DiscoveryWarningSeverity {
    /// Expected filtering or override information.
    Info,
    /// Invalid or unavailable input which may merit investigation.
    Warning,
}

/// The place of a severity in the order of diagnostics.
pub open spec fn severity_rank(severity: DiscoveryWarningSeverity) -> int {
    match severity {
        DiscoveryWarningSeverity::Info => 0,
        DiscoveryWarningSeverity::Warning => 1,
    }
}

/// A deterministic, structured non-fatal discovery diagnostic.
#[derive(Debug, PartialEq, Eq)]
pub struct DiscoveryWarning {
    /// Desktop file or discovery directory associated with the warning.
    pub path: UnixPath,
    /// Machine-readable warning category.
    pub category: DiscoveryWarningCategory,
    /// Diagnostic severity.
    pub severity: DiscoveryWarningSeverity,
    /// Human-readable reason.
    pub reason: String,
    /// Whether this condition prevented an entry from being returned.
    pub skipped: bool,
}

/// A diagnostic by its contents.
pub struct WarningView {
    pub path: Seq<u8>,
    pub category: DiscoveryWarningCategory,
    pub severity: DiscoveryWarningSeverity,
    pub reason: Seq<char>,
    pub skipped: bool,
}

impl View for DiscoveryWarning {
    type V = WarningView;

    open spec fn view(&self) -> WarningView {
        WarningView {
            path: self.path@,
            category: self.category,
            severity: self.severity,
            reason: self.reason@,
            skipped: self.skipped,
        }
    }
}

/// A diagnostic about an entry that was left out.
pub open spec fn skip_warning(
    path: Seq<u8>,
    category: DiscoveryWarningCategory,
    severity: DiscoveryWarningSeverity,
    reason: Seq<char>,
) -> WarningView {
    WarningView { path, category, severity, reason, skipped: true }
}

impl DiscoveryWarning {
    pub(crate) fn skipped(
        path: &UnixPath,
        category: DiscoveryWarningCategory,
        severity: DiscoveryWarningSeverity,
        reason: String,
    ) -> (out: Self)
        ensures
            out@ == skip_warning(path@, category, severity, reason@),
    {
        DiscoveryWarning { path: path.clone(), category, severity, reason, skipped: true }
    }
}

/// Applications and non-fatal warnings produced by one discovery scan.
#[derive(Debug, PartialEq, Eq)]
pub struct DiscoveryReport {
    /// Applications sorted by stable desktop-file ID.
    pub applications: Vec<DiscoveredApplication>,
    /// Diagnostics sorted by path, category, severity, and reason.
    pub warnings: Vec<DiscoveryWarning>,
}

/// A report by its contents.
pub struct ReportView {
    pub applications: Seq<ApplicationView>,
    pub warnings: Seq<WarningView>,
}

impl View for DiscoveryReport {
    type V = ReportView;

    open spec fn view(&self) -> ReportView {
        ReportView { applications: views(self.applications@), warnings: views(self.warnings@) }
    }
}

impl Default for DiscoveryReport {
    fn default() -> (out: Self)
        ensures
            out@.applications == Seq::<ApplicationView>::empty(),
            out@.warnings == Seq::<WarningView>::empty(),
    {
        let out = DiscoveryReport { applications: Vec::new(), warnings: Vec::new() };
        assert(out@.applications =~= Seq::empty());
        assert(out@.warnings =~= Seq::empty());
        out
    }
}

/// Fatal discovery failures which prevent a complete report.
#[derive(Debug, PartialEq, Eq)]
pub enum DiscoveryError {
    /// No XDG data root was configured.
    NoDiscoveryRoots,
    /// A caller-required `applications` directory was unavailable.
    RequiredRootUnavailable {
        /// Required directory.
        path: UnixPath,
        /// Underlying filesystem error.
        source: String,
    },
    /// A configured root was an empty path.
    EmptyDiscoveryRoot {
        /// Zero-based source priority.
        priority: usize,
    },
}

/// A discovery failure by its contents.
pub enum DiscoveryErrorView {
    NoDiscoveryRoots,
    RequiredRootUnavailable { path: Seq<u8>, source: Seq<char> },
    EmptyDiscoveryRoot { priority: int },
}

impl View for DiscoveryError {
    type V = DiscoveryErrorView;

    open spec fn view(&self) -> DiscoveryErrorView {
        match self {
            DiscoveryError::NoDiscoveryRoots => DiscoveryErrorView::NoDiscoveryRoots,
            DiscoveryError::RequiredRootUnavailable { path, source } => {
                DiscoveryErrorView::RequiredRootUnavailable { path: path@, source: source@ }
            },
            DiscoveryError::EmptyDiscoveryRoot { priority } => {
                DiscoveryErrorView::EmptyDiscoveryRoot { priority: *priority as int }
            },
        }
    }
}

/// The message of a discovery failure.
pub open spec fn discovery_error_text(e: DiscoveryErrorView) -> Seq<char> {
    match e {
        DiscoveryErrorView::NoDiscoveryRoots => {
            "no desktop application discovery roots were configured"@
        },
        DiscoveryErrorView::RequiredRootUnavailable { path, source } => {
            "required desktop application directory "@ + lossy_text(path) + " is unavailable: "@
                + source
        },
        DiscoveryErrorView::EmptyDiscoveryRoot { priority } => {
            "desktop application discovery root at priority "@ + decimal(priority as nat)
                + " is empty"@
        },
    }
}

impl DiscoveryError {
    /// The message shown to the user.
    pub fn message(&self) -> (out: String)
        ensures
            out@ == discovery_error_text(self@),
    {
        match self {
            DiscoveryError::NoDiscoveryRoots => {
                "no desktop application discovery roots were configured".to_owned()
            },
            DiscoveryError::RequiredRootUnavailable { path, source } => {
                "required desktop application directory ".to_owned().concat(
                    path.display().as_str(),
                ).concat(" is unavailable: ").concat(source.as_str())
            },
            DiscoveryError::EmptyDiscoveryRoot { priority } => {
                "desktop application discovery root at priority ".to_owned().concat(
                    decimal_text(*priority as u64).as_str(),
                ).concat(" is empty")
            },
        }
    }
}

} // verus!
