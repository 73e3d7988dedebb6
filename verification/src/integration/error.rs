//! The errors of startup integration.
use vstd::prelude::*;
use vstd::string::StringExecFns;

use crate::path::{lossy_text, UnixPath};

verus! {

/// Safe startup/autostart integration errors. Where the system failed,
/// `source` is its message.
#[derive(Debug, PartialEq, Eq)]
pub enum IntegrationError {
    /// No user configuration root was available.
    ConfigHomeUnavailable,
    /// No user state root was available.
    StateHomeUnavailable,
    /// Generated integration requires absolute, control-free paths.
    InvalidPath { field: String, path: UnixPath, reason: String },
    /// A desktop ID was unsafe to use as one direct filename.
    InvalidDesktopId { desktop_id: String },
    /// An existing user file was not generated by this launcher.
    UnownedFile { path: UnixPath },
    /// Final symlinks are never followed or replaced by integration mutations.
    SymlinkRejected { path: UnixPath },
    /// Filesystem operation failed.
    FileSystem { path: UnixPath, source: String },
    /// A direct systemctl operation failed.
    Systemctl { operation: String, reason: String },
    /// A required path was not UTF-8 representable in a systemd unit.
    NonUtf8Path { field: String },
    /// Integration roots must resolve beneath state owned by the invoking user.
    UnsafeUserRoot { field: String, path: UnixPath, reason: String },
}

/// An integration error by its contents.
pub enum IntegrationErrorView {
    ConfigHomeUnavailable,
    StateHomeUnavailable,
    InvalidPath { field: Seq<char>, path: Seq<u8>, reason: Seq<char> },
    InvalidDesktopId { desktop_id: Seq<char> },
    UnownedFile { path: Seq<u8> },
    SymlinkRejected { path: Seq<u8> },
    FileSystem { path: Seq<u8>, source: Seq<char> },
    Systemctl { operation: Seq<char>, reason: Seq<char> },
    NonUtf8Path { field: Seq<char> },
    UnsafeUserRoot { field: Seq<char>, path: Seq<u8>, reason: Seq<char> },
}

impl View for IntegrationError {
    type V = IntegrationErrorView;

    open spec fn view(&self) -> IntegrationErrorView {
        match self {
            IntegrationError::ConfigHomeUnavailable => IntegrationErrorView::ConfigHomeUnavailable,
            IntegrationError::StateHomeUnavailable => IntegrationErrorView::StateHomeUnavailable,
            IntegrationError::InvalidPath { field, path, reason } => {
                IntegrationErrorView::InvalidPath { field: field@, path: path@, reason: reason@ }
            },
            IntegrationError::InvalidDesktopId { desktop_id } => {
                IntegrationErrorView::InvalidDesktopId { desktop_id: desktop_id@ }
            },
            IntegrationError::UnownedFile { path } => IntegrationErrorView::UnownedFile {
                path: path@,
            },
            IntegrationError::SymlinkRejected { path } => IntegrationErrorView::SymlinkRejected {
                path: path@,
            },
            IntegrationError::FileSystem { path, source } => IntegrationErrorView::FileSystem {
                path: path@,
                source: source@,
            },
            IntegrationError::Systemctl { operation, reason } => {
                IntegrationErrorView::Systemctl { operation: operation@, reason: reason@ }
            },
            IntegrationError::NonUtf8Path { field } => IntegrationErrorView::NonUtf8Path {
                field: field@,
            },
            IntegrationError::UnsafeUserRoot { field, path, reason } => {
                IntegrationErrorView::UnsafeUserRoot {
                    field: field@,
                    path: path@,
                    reason: reason@,
                }
            },
        }
    }
}

/// The message of an integration error.
pub open spec fn integration_error_text(e: IntegrationErrorView) -> Seq<char> {
    match e {
        IntegrationErrorView::ConfigHomeUnavailable => {
            "cannot resolve a user configuration home; set XDG_CONFIG_HOME or HOME"@
        },
        IntegrationErrorView::StateHomeUnavailable => {
            "cannot resolve a user state home; set XDG_STATE_HOME or HOME"@
        },
        IntegrationErrorView::InvalidPath { field, path, reason } => "invalid "@ + field
            + " path "@ + lossy_text(path) + ": "@ + reason,
        IntegrationErrorView::InvalidDesktopId { desktop_id } => "desktop ID `"@ + desktop_id
            + "` cannot be used for autostart integration"@,
        IntegrationErrorView::UnownedFile { path } => "refusing to overwrite or remove unowned file "@
            + lossy_text(path),
        IntegrationErrorView::SymlinkRejected { path } => "refusing symlinked integration path "@
            + lossy_text(path),
        IntegrationErrorView::FileSystem { path, source } => {
            "integration filesystem operation failed for "@ + lossy_text(path) + ": "@ + source
        },
        IntegrationErrorView::Systemctl { operation, reason } => "systemctl --user "@ + operation
            + " failed: "@ + reason,
        IntegrationErrorView::NonUtf8Path { field } => field
            + " path is not valid UTF-8 and cannot be encoded safely in a systemd unit"@,
        IntegrationErrorView::UnsafeUserRoot { field, path, reason } => field + " path "@
            + lossy_text(path) + " is not a safe user-owned location: "@ + reason,
    }
}

impl IntegrationError {
    /// The message shown to the user.
    pub fn message(&self) -> (out: String)
        ensures
            out@ == integration_error_text(self@),
    {
        match self {
            IntegrationError::ConfigHomeUnavailable => {
                "cannot resolve a user configuration home; set XDG_CONFIG_HOME or HOME".to_owned()
            },
            IntegrationError::StateHomeUnavailable => {
                "cannot resolve a user state home; set XDG_STATE_HOME or HOME".to_owned()
            },
            IntegrationError::InvalidPath { field, path, reason } => {
                "invalid ".to_owned().concat(field.as_str()).concat(" path ").concat(
                    path.display().as_str(),
                ).concat(": ").concat(reason.as_str())
            },
            IntegrationError::InvalidDesktopId { desktop_id } => {
                "desktop ID `".to_owned().concat(desktop_id.as_str()).concat(
                    "` cannot be used for autostart integration",
                )
            },
            IntegrationError::UnownedFile { path } => {
                "refusing to overwrite or remove unowned file ".to_owned().concat(
                    path.display().as_str(),
                )
            },
            IntegrationError::SymlinkRejected { path } => {
                "refusing symlinked integration path ".to_owned().concat(path.display().as_str())
            },
            IntegrationError::FileSystem { path, source } => {
                "integration filesystem operation failed for ".to_owned().concat(
                    path.display().as_str(),
                ).concat(": ").concat(source.as_str())
            },
            IntegrationError::Systemctl { operation, reason } => {
                "systemctl --user ".to_owned().concat(operation.as_str()).concat(
                    " failed: ",
                ).concat(reason.as_str())
            },
            IntegrationError::NonUtf8Path { field } => {
                field.clone().concat(
                    " path is not valid UTF-8 and cannot be encoded safely in a systemd unit",
                )
            },
            IntegrationError::UnsafeUserRoot { field, path, reason } => {
                field.clone().concat(" path ").concat(path.display().as_str()).concat(
                    " is not a safe user-owned location: ",
                ).concat(reason.as_str())
            },
        }
    }
}

} // verus!
