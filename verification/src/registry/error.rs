//! The errors of the registry.
use vstd::prelude::*;
use vstd::string::StringExecFns;

use super::model::CURRENT_SCHEMA_VERSION;
use crate::path::{lossy_text, UnixPath};
use crate::text::{decimal, decimal_text};

verus! {

/// One semantic validation issue in a registry file or requested mutation.
#[derive(Debug, PartialEq, Eq)]
pub struct ValidationError {
    /// Stable TOML-like field path.
    pub field: String,
    /// Human-readable explanation.
    pub message: String,
}

/// A validation issue by its contents.
pub struct ProblemView {
    pub field: Seq<char>,
    pub message: Seq<char>,
}

impl View for ValidationError {
    type V = ProblemView;

    open spec fn view(&self) -> ProblemView {
        ProblemView { field: self.field@, message: self.message@ }
    }
}

/// The message of a validation issue.
pub open spec fn problem_text(problem: ProblemView) -> Seq<char> {
    problem.field + ": "@ + problem.message
}

impl ValidationError {
    /// The message shown to the user.
    pub fn text(&self) -> (out: String)
        ensures
            out@ == problem_text(self@),
    {
        self.field.clone().concat(": ").concat(self.message.as_str())
    }
}

/// Registry path, load, validation, lock, persistence, and operation errors.
/// Where the system or the TOML library failed, `source` is its message.
#[derive(Debug, PartialEq, Eq)]
pub enum RegistryError {
    /// No usable explicit path, XDG config root, or home directory was available.
    ConfigPathUnavailable,
    /// The caller supplied an empty config path.
    EmptyConfigPath,
    /// A configuration path intended as a file was an existing directory.
    ConfigPathIsDirectory { path: UnixPath },
    /// A configuration path or lock path was a symlink and was rejected.
    SymlinkRejected { path: UnixPath },
    /// The existing configuration file could not be read.
    ReadConfig { path: UnixPath, source: String },
    /// The existing configuration file was not valid TOML.
    TomlSyntax { path: UnixPath, source: String },
    /// The file used a schema this build cannot interpret.
    UnsupportedSchemaVersion { found: u32 },
    /// The decoded registry failed one or more semantic checks.
    Validation(ValidationError),
    /// The caller requested an unavailable desktop application ID.
    UnknownDiscoveredApplication { desktop_id: String },
    /// The caller requested an ID which is not explicitly registered.
    UnknownRegisteredApplication { desktop_id: String },
    /// The mutation lock could not be acquired.
    LockAcquire { path: UnixPath, source: String },
    /// The configuration parent could not be created.
    CreateConfigDirectory { path: UnixPath, source: String },
    /// A temporary file could not be created or written.
    AtomicWrite { path: UnixPath, source: String },
    /// A TOML serialization error occurred before writing.
    TomlSerialize { source: String },
    /// A terminal-only selection or confirmation was unavailable to a script.
    InteractiveInputUnavailable,
    /// The user canceled an interactive selection or confirmation.
    InteractiveCanceled,
    /// Terminal input or output failed during an interactive command.
    InteractiveIo { operation: String, source: String },
    /// User input did not name a valid selectable item.
    InvalidInteractiveSelection { value: String },
}

/// A registry error by its contents.
pub enum RegistryErrorView {
    ConfigPathUnavailable,
    EmptyConfigPath,
    ConfigPathIsDirectory { path: Seq<u8> },
    SymlinkRejected { path: Seq<u8> },
    ReadConfig { path: Seq<u8>, source: Seq<char> },
    TomlSyntax { path: Seq<u8>, source: Seq<char> },
    UnsupportedSchemaVersion { found: u32 },
    Validation(ProblemView),
    UnknownDiscoveredApplication { desktop_id: Seq<char> },
    UnknownRegisteredApplication { desktop_id: Seq<char> },
    LockAcquire { path: Seq<u8>, source: Seq<char> },
    CreateConfigDirectory { path: Seq<u8>, source: Seq<char> },
    AtomicWrite { path: Seq<u8>, source: Seq<char> },
    TomlSerialize { source: Seq<char> },
    InteractiveInputUnavailable,
    InteractiveCanceled,
    InteractiveIo { operation: Seq<char>, source: Seq<char> },
    InvalidInteractiveSelection { value: Seq<char> },
}

impl View for RegistryError {
    type V = RegistryErrorView;

    open spec fn view(&self) -> RegistryErrorView {
        match self {
            RegistryError::ConfigPathUnavailable => RegistryErrorView::ConfigPathUnavailable,
            RegistryError::EmptyConfigPath => RegistryErrorView::EmptyConfigPath,
            RegistryError::ConfigPathIsDirectory { path } => {
                RegistryErrorView::ConfigPathIsDirectory { path: path@ }
            },
            RegistryError::SymlinkRejected { path } => RegistryErrorView::SymlinkRejected {
                path: path@,
            },
            RegistryError::ReadConfig { path, source } => RegistryErrorView::ReadConfig {
                path: path@,
                source: source@,
            },
            RegistryError::TomlSyntax { path, source } => RegistryErrorView::TomlSyntax {
                path: path@,
                source: source@,
            },
            RegistryError::UnsupportedSchemaVersion { found } => {
                RegistryErrorView::UnsupportedSchemaVersion { found: *found }
            },
            RegistryError::Validation(problem) => RegistryErrorView::Validation(problem@),
            RegistryError::UnknownDiscoveredApplication { desktop_id } => {
                RegistryErrorView::UnknownDiscoveredApplication { desktop_id: desktop_id@ }
            },
            RegistryError::UnknownRegisteredApplication { desktop_id } => {
                RegistryErrorView::UnknownRegisteredApplication { desktop_id: desktop_id@ }
            },
            RegistryError::LockAcquire { path, source } => RegistryErrorView::LockAcquire {
                path: path@,
                source: source@,
            },
            RegistryError::CreateConfigDirectory { path, source } => {
                RegistryErrorView::CreateConfigDirectory { path: path@, source: source@ }
            },
            RegistryError::AtomicWrite { path, source } => RegistryErrorView::AtomicWrite {
                path: path@,
                source: source@,
            },
            RegistryError::TomlSerialize { source } => RegistryErrorView::TomlSerialize {
                source: source@,
            },
            RegistryError::InteractiveInputUnavailable => {
                RegistryErrorView::InteractiveInputUnavailable
            },
            RegistryError::InteractiveCanceled => RegistryErrorView::InteractiveCanceled,
            RegistryError::InteractiveIo { operation, source } => {
                RegistryErrorView::InteractiveIo { operation: operation@, source: source@ }
            },
            RegistryError::InvalidInteractiveSelection { value } => {
                RegistryErrorView::InvalidInteractiveSelection { value: value@ }
            },
        }
    }
}

/// The message of a registry error.
pub open spec fn registry_error_text(e: RegistryErrorView) -> Seq<char> {
    match e {
        RegistryErrorView::ConfigPathUnavailable => {
            "cannot resolve configuration path: provide --config or set XDG_CONFIG_HOME or HOME"@
        },
        RegistryErrorView::EmptyConfigPath => "configuration path is empty"@,
        RegistryErrorView::ConfigPathIsDirectory { path } => "configuration path "@ + lossy_text(
            path,
        ) + " is a directory"@,
        RegistryErrorView::SymlinkRejected { path } => "refusing symlinked configuration path "@
            + lossy_text(path),
        RegistryErrorView::ReadConfig { path, source } => "failed to read configuration file "@
            + lossy_text(path) + ": "@ + source,
        RegistryErrorView::TomlSyntax { path, source } => "configuration file "@ + lossy_text(path)
            + " contains invalid TOML: "@ + source,
        RegistryErrorView::UnsupportedSchemaVersion { found } => "configuration schema version "@
            + decimal(found as nat) + " is unsupported; this build supports "@ + decimal(
            CURRENT_SCHEMA_VERSION as nat,
        ),
        RegistryErrorView::Validation(problem) => "registry validation failed: "@ + problem_text(
            problem,
        ),
        RegistryErrorView::UnknownDiscoveredApplication { desktop_id } => "desktop application `"@
            + desktop_id + "` is not currently discoverable"@,
        RegistryErrorView::UnknownRegisteredApplication { desktop_id } => "desktop application `"@
            + desktop_id + "` is not registered"@,
        RegistryErrorView::LockAcquire { path, source } => {
            "failed to acquire registry mutation lock "@ + lossy_text(path) + ": "@ + source
        },
        RegistryErrorView::CreateConfigDirectory { path, source } => {
            "failed to create configuration directory "@ + lossy_text(path) + ": "@ + source
        },
        RegistryErrorView::AtomicWrite { path, source } => {
            "failed to atomically write configuration file "@ + lossy_text(path) + ": "@ + source
        },
        RegistryErrorView::TomlSerialize { source } => "failed to serialize registry TOML: "@
            + source,
        RegistryErrorView::InteractiveInputUnavailable => {
            "interactive selection or confirmation requires a terminal; use explicit IDs or --yes"@
        },
        RegistryErrorView::InteractiveCanceled => "interactive operation canceled"@,
        RegistryErrorView::InteractiveIo { operation, source } => "interactive "@ + operation
            + " failed: "@ + source,
        RegistryErrorView::InvalidInteractiveSelection { value } => {
            "invalid interactive selection `"@ + value + "`"@
        },
    }
}

impl RegistryError {
    /// The message shown to the user.
    pub fn message(&self) -> (out: String)
        ensures
            out@ == registry_error_text(self@),
    {
        match self {
            RegistryError::ConfigPathUnavailable => {
                "cannot resolve configuration path: provide --config or set XDG_CONFIG_HOME or HOME".to_owned()
            },
            RegistryError::EmptyConfigPath => "configuration path is empty".to_owned(),
            RegistryError::ConfigPathIsDirectory { path } => {
                "configuration path ".to_owned().concat(path.display().as_str()).concat(
                    " is a directory",
                )
            },
            RegistryError::SymlinkRejected { path } => {
                "refusing symlinked configuration path ".to_owned().concat(
                    path.display().as_str(),
                )
            },
            RegistryError::ReadConfig { path, source } => {
                "failed to read configuration file ".to_owned().concat(
                    path.display().as_str(),
                ).concat(": ").concat(source.as_str())
            },
            RegistryError::TomlSyntax { path, source } => {
                "configuration file ".to_owned().concat(path.display().as_str()).concat(
                    " contains invalid TOML: ",
                ).concat(source.as_str())
            },
            RegistryError::UnsupportedSchemaVersion { found } => {
                "configuration schema version ".to_owned().concat(
                    decimal_text(*found as u64).as_str(),
                ).concat(" is unsupported; this build supports ").concat(
                    decimal_text(CURRENT_SCHEMA_VERSION as u64).as_str(),
                )
            },
            RegistryError::Validation(problem) => {
                "registry validation failed: ".to_owned().concat(problem.text().as_str())
            },
            RegistryError::UnknownDiscoveredApplication { desktop_id } => {
                "desktop application `".to_owned().concat(desktop_id.as_str()).concat(
                    "` is not currently discoverable",
                )
            },
            RegistryError::UnknownRegisteredApplication { desktop_id } => {
                "desktop application `".to_owned().concat(desktop_id.as_str()).concat(
                    "` is not registered",
                )
            },
            RegistryError::LockAcquire { path, source } => {
                "failed to acquire registry mutation lock ".to_owned().concat(
                    path.display().as_str(),
                ).concat(": ").concat(source.as_str())
            },
            RegistryError::CreateConfigDirectory { path, source } => {
                "failed to create configuration directory ".to_owned().concat(
                    path.display().as_str(),
                ).concat(": ").concat(source.as_str())
            },
            RegistryError::AtomicWrite { path, source } => {
                "failed to atomically write configuration file ".to_owned().concat(
                    path.display().as_str(),
                ).concat(": ").concat(source.as_str())
            },
            RegistryError::TomlSerialize { source } => {
                "failed to serialize registry TOML: ".to_owned().concat(source.as_str())
            },
            RegistryError::InteractiveInputUnavailable => {
                "interactive selection or confirmation requires a terminal; use explicit IDs or --yes".to_owned()
            },
            RegistryError::InteractiveCanceled => "interactive operation canceled".to_owned(),
            RegistryError::InteractiveIo { operation, source } => {
                "interactive ".to_owned().concat(operation.as_str()).concat(" failed: ").concat(
                    source.as_str(),
                )
            },
            RegistryError::InvalidInteractiveSelection { value } => {
                "invalid interactive selection `".to_owned().concat(value.as_str()).concat("`")
            },
        }
    }
}

} // verus!
