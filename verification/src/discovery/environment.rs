//! Discovery settings from the process environment.
use vstd::prelude::*;
use vstd::utf8::encode_utf8;

use super::scanner::DiscoveryOptions;
use crate::path::{absolute, child, optional_path, UnixPath};
use crate::text::{group_views, nonempty_pieces, optional_text_view, pieces, views};

verus! {

/// The environment variables that discovery looks at.
#[derive(Debug)]
pub struct DiscoveryEnvironment {
    /// `XDG_DATA_HOME`.
    pub xdg_data_home: Option<UnixPath>,
    /// `HOME`.
    pub home: Option<UnixPath>,
    /// The directories of `XDG_DATA_DIRS`.
    pub xdg_data_dirs: Vec<UnixPath>,
    /// The directories of `PATH`.
    pub path: Vec<UnixPath>,
    /// `LC_ALL`.
    pub lc_all: Option<String>,
    /// `LC_MESSAGES`.
    pub lc_messages: Option<String>,
    /// `LANG`.
    pub lang: Option<String>,
    /// `XDG_CURRENT_DESKTOP`.
    pub current_desktop: Option<String>,
}

/// The user data root: an absolute `XDG_DATA_HOME`, else `.local/share` below
/// an absolute `HOME`.
pub open spec fn data_home(xdg: Option<Seq<u8>>, home: Option<Seq<u8>>) -> Option<Seq<u8>> {
    match xdg {
        Some(path) if absolute(path) => Some(path),
        _ => match home {
            Some(path) if absolute(path) => Some(child(path, ".local/share"@)),
            _ => None,
        },
    }
}

/// The user data root that the environment names.
pub fn environment_data_home(xdg: &Option<UnixPath>, home: &Option<UnixPath>) -> (out: Option<
    UnixPath,
>)
    ensures
        optional_path(out) == data_home(optional_path(*xdg), optional_path(*home)),
{
    match xdg {
        Some(path) => {
            if path.is_absolute() {
                return Some(path.clone());
            }
        },
        None => {},
    }
    match home {
        Some(path) => if path.is_absolute() {
            Some(path.join(".local/share"))
        } else {
            None
        },
        None => None,
    }
}

/// The system data roots: the absolute ones that are listed, else the usual
/// two.
pub open spec fn data_dirs(listed: Seq<Seq<u8>>) -> Seq<Seq<u8>> {
    let usable = listed.filter(|path: Seq<u8>| absolute(path));
    if usable.len() == 0 {
        seq![encode_utf8("/usr/local/share"@), encode_utf8("/usr/share"@)]
    } else {
        usable
    }
}

/// The system data roots that the environment names.
pub fn environment_data_dirs(listed: &Vec<UnixPath>) -> (out: Vec<UnixPath>)
    ensures
        views(out@) == data_dirs(views(listed@)),
{
    broadcast use group_views;

    let ghost all = views(listed@);
    let ghost keep = |path: Seq<u8>| absolute(path);
    let mut out: Vec<UnixPath> = Vec::new();
    let mut i: usize = 0;
    proof {
        reveal(Seq::filter);
        assert(all.take(0).filter(keep) =~= Seq::empty());
    }
    while i < listed.len()
        invariant
            i <= listed@.len(),
            all == views(listed@),
            keep == (|path: Seq<u8>| absolute(path)),
            views(out@) == all.take(i as int).filter(keep),
        decreases listed.len() - i,
    {
        proof {
            assert(all[i as int] == listed@[i as int]@);
            assert(all.take(i + 1) =~= all.take(i as int).push(all[i as int]));
            all.take(i as int).lemma_filter_push(all[i as int], keep);
        }
        if listed[i].is_absolute() {
            out.push(listed[i].clone());
        }
        i += 1;
    }
    assert(all.take(all.len() as int) =~= all);
    if out.len() == 0 {
        assert(views(out@).len() == 0);
        out.push(UnixPath::from_text("/usr/local/share"));
        out.push(UnixPath::from_text("/usr/share"));
        assert(views(out@) =~= data_dirs(all));
    }
    out
}

pub open spec fn nonempty(value: Option<Seq<char>>) -> bool {
    value is Some && value->0.len() > 0
}

/// The locale: the first of `LC_ALL`, `LC_MESSAGES` and `LANG` that is set.
pub open spec fn active_locale(
    lc_all: Option<Seq<char>>,
    lc_messages: Option<Seq<char>>,
    lang: Option<Seq<char>>,
) -> Option<Seq<char>> {
    if nonempty(lc_all) {
        lc_all
    } else if nonempty(lc_messages) {
        lc_messages
    } else if nonempty(lang) {
        lang
    } else {
        None
    }
}

fn is_nonempty(value: &Option<String>) -> (out: bool)
    ensures
        out == nonempty(optional_text_view(*value)),
{
    match value {
        Some(text) => !text.as_str().is_empty(),
        None => false,
    }
}

/// The locale that the environment names.
pub fn environment_locale(
    lc_all: &Option<String>,
    lc_messages: &Option<String>,
    lang: &Option<String>,
) -> (out: Option<String>)
    ensures
        optional_text_view(out) == active_locale(
            optional_text_view(*lc_all),
            optional_text_view(*lc_messages),
            optional_text_view(*lang),
        ),
{
    if is_nonempty(lc_all) {
        lc_all.clone()
    } else if is_nonempty(lc_messages) {
        lc_messages.clone()
    } else if is_nonempty(lang) {
        lang.clone()
    } else {
        None
    }
}

/// The desktop names in a colon-separated list.
pub fn split_desktops(value: &str) -> (out: Vec<String>)
    ensures
        views(out@) == pieces(value@, ':'),
{
    nonempty_pieces(value, ':')
}

impl DiscoveryOptions {
    /// Production defaults for the process XDG, locale, desktop, and `PATH`
    /// environment.
    pub fn from_environment(environment: DiscoveryEnvironment) -> (out: Self)
        ensures
            out@.data_home == data_home(
                optional_path(environment.xdg_data_home),
                optional_path(environment.home),
            ),
            out@.data_dirs == data_dirs(views(environment.xdg_data_dirs@)),
            out@.executable_path == views(environment.path@),
            out@.locale == active_locale(
                optional_text_view(environment.lc_all),
                optional_text_view(environment.lc_messages),
                optional_text_view(environment.lang),
            ),
            out@.current_desktops == match environment.current_desktop {
                Some(value) => pieces(value@, ':'),
                None => Seq::empty(),
            },
            !out.include_no_display,
            !out.ignore_desktop_filter,
            !out.require_existing_roots,
    {
        broadcast use group_views;

        let current_desktops = match &environment.current_desktop {
            Some(value) => split_desktops(value.as_str()),
            None => Vec::new(),
        };
        DiscoveryOptions {
            data_home: environment_data_home(&environment.xdg_data_home, &environment.home),
            data_dirs: environment_data_dirs(&environment.xdg_data_dirs),
            executable_path: environment.path,
            locale: environment_locale(
                &environment.lc_all,
                &environment.lc_messages,
                &environment.lang,
            ),
            current_desktops,
            include_no_display: false,
            ignore_desktop_filter: false,
            require_existing_roots: false,
        }
    }
}

} // verus!
