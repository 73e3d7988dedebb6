//! Where the configuration file is.
use vstd::prelude::*;

use super::error::{RegistryError, RegistryErrorView};
use crate::path::{absolute, child, optional_path, UnixPath};

verus! {

/// The configuration file: an explicit path, else one below an absolute
/// `XDG_CONFIG_HOME`, else one below an absolute `HOME`.
pub open spec fn config_path(
    explicit: Option<Seq<u8>>,
    xdg_config_home: Option<Seq<u8>>,
    home: Option<Seq<u8>>,
) -> Result<Seq<u8>, RegistryErrorView> {
    match explicit {
        Some(path) => if path.len() == 0 {
            Err(RegistryErrorView::EmptyConfigPath)
        } else {
            Ok(path)
        },
        None => if xdg_config_home is Some && absolute(xdg_config_home->0) {
            Ok(child(xdg_config_home->0, "ecore-launcher/config.toml"@))
        } else if home is Some && absolute(home->0) {
            Ok(child(home->0, ".config/ecore-launcher/config.toml"@))
        } else {
            Err(RegistryErrorView::ConfigPathUnavailable)
        },
    }
}

/// Resolve an explicit or XDG configuration file path without creating it.
///
/// An explicit non-empty path wins. Otherwise the result is
/// `$XDG_CONFIG_HOME/ecore-launcher/config.toml`, falling back to
/// `$HOME/.config/ecore-launcher/config.toml`. Relative explicit paths are
/// accepted for diagnostics; environment-derived roots must be absolute.
pub fn resolve_config_path(
    explicit: &Option<UnixPath>,
    xdg_config_home: &Option<UnixPath>,
    home: &Option<UnixPath>,
) -> (out: Result<UnixPath, RegistryError>)
    ensures
        match out {
            Ok(path) => config_path(
                optional_path(*explicit),
                optional_path(*xdg_config_home),
                optional_path(*home),
            ) == Ok::<Seq<u8>, RegistryErrorView>(path@),
            Err(e) => config_path(
                optional_path(*explicit),
                optional_path(*xdg_config_home),
                optional_path(*home),
            ) == Err::<Seq<u8>, RegistryErrorView>(e@),
        },
{
    match explicit {
        Some(path) => {
            return if path.bytes.len() == 0 {
                Err(RegistryError::EmptyConfigPath)
            } else {
                Ok(path.clone())
            };
        },
        None => {},
    }
    match xdg_config_home {
        Some(root) => {
            if root.is_absolute() {
                return Ok(root.join("ecore-launcher/config.toml"));
            }
        },
        None => {},
    }
    match home {
        Some(home) => {
            if home.is_absolute() {
                return Ok(home.join(".config/ecore-launcher/config.toml"));
            }
        },
        None => {},
    }
    Err(RegistryError::ConfigPathUnavailable)
}

} // verus!
