//! Why a desktop file, or a root, is left out.
use vstd::prelude::*;
use vstd::utf8::{decode_utf8, valid_utf8};

use super::desktop_entry::{desktop_entry, resolved, DesktopEntryView};
use super::exec_parser::exec_command;
use super::meaning::{names_active, visibility_follows_the_named_desktops};
use super::resolver::resolution;
use super::scanner::{
    application, bytes_at, file_entry, nonblank, root_at, root_files, BytesRead, OptionsView,
    RootScan,
};
use super::types::{DiscoveryErrorView, DiscoveryWarningCategory, DiscoveryWarningSeverity};
use crate::path::UnixPath;

verus! {

/// An entry is not meant to be seen: it is hidden, it is not displayed and
/// that counts, or the desktop filter leaves it out.
pub open spec fn unseen(options: OptionsView, entry: DesktopEntryView) -> bool {
    ||| entry.hidden
    ||| entry.no_display && !options.include_no_display
    ||| !options.ignore_desktop_filter && ((entry.only_show_in.len() > 0 && !names_active(
        entry.only_show_in,
        options.current_desktops,
    )) || names_active(entry.not_show_in, options.current_desktops))
}

/// A required value of an entry is missing, or two contradict each other.
pub open spec fn incomplete(options: OptionsView, entry: DesktopEntryView) -> bool {
    ||| entry.entry_type != Some("Application"@)
    ||| entry.only_show_in.len() > 0 && entry.not_show_in.len() > 0
    ||| nonblank(resolved(entry.names, options.locale)) is None
    ||| entry.command is None
}

/// The category under which an entry is left out is what is the matter with it,
/// and a mere remark is made exactly of what is not meant to be seen or is no
/// application.
pub proof fn categories_tell_what_is_the_matter(
    options: OptionsView,
    executables: Seq<Seq<u8>>,
    id: Seq<char>,
    file: Seq<u8>,
    priority: int,
    entry: DesktopEntryView,
)
    ensures
        application(options, executables, id, file, priority, entry) matches Err(w) ==> {
            let name = resolved(entry.names, options.locale);
            &&& w.path == file
            &&& w.category == DiscoveryWarningCategory::Visibility ==> unseen(options, entry)
            &&& w.category == DiscoveryWarningCategory::DesktopEntry ==> incomplete(options, entry)
            &&& w.category == DiscoveryWarningCategory::TryExec ==> entry.try_exec is Some
                && resolution(options.executable_path, executables, entry.try_exec->0) is Err
            &&& w.category == DiscoveryWarningCategory::Exec ==> exec_command(
                entry.command->0,
                name->0,
                file,
            ) is Err
            &&& w.category == DiscoveryWarningCategory::Executable ==> resolution(
                options.executable_path,
                executables,
                exec_command(entry.command->0, name->0, file)->Ok_0.executable,
            ) is Err
            &&& entry.hidden ==> w.category == DiscoveryWarningCategory::Visibility
            &&& w.category == DiscoveryWarningCategory::Visibility || w.category
                == DiscoveryWarningCategory::DesktopEntry || w.category
                == DiscoveryWarningCategory::TryExec || w.category == DiscoveryWarningCategory::Exec
                || w.category == DiscoveryWarningCategory::Executable
            &&& w.severity == DiscoveryWarningSeverity::Info <==> w.category
                == DiscoveryWarningCategory::Visibility || (!entry.hidden && entry.entry_type
                != Some("Application"@))
        },
{
    visibility_follows_the_named_desktops(entry, options.current_desktops);
}

/// A file gives the entry that its text holds. One that could not be read, is
/// no text or holds no entry is reported under the category for that.
pub proof fn files_give_their_entries(files: Seq<(UnixPath, BytesRead)>, path: Seq<u8>)
    ensures
        match bytes_at(files, path) {
            Some(BytesRead::Bytes(bytes)) => {
                &&& file_entry(files, path) is Ok <==> valid_utf8(bytes@) && desktop_entry(
                    decode_utf8(bytes@),
                ) is Ok
                &&& file_entry(files, path) matches Ok(entry) ==> entry == desktop_entry(
                    decode_utf8(bytes@),
                )->Ok_0
                &&& file_entry(files, path) matches Err(w) ==> w.path == path && w.skipped && (
                w.category == DiscoveryWarningCategory::InvalidUtf8 <==> !valid_utf8(bytes@)) && (
                w.category == DiscoveryWarningCategory::DesktopEntry <==> valid_utf8(bytes@))
            },
            _ => file_entry(files, path) is Err && file_entry(files, path)->Err_0.path == path,
        },
{
}

/// A root was read as a directory.
pub open spec fn readable_root(roots: Seq<(UnixPath, RootScan)>, root: Seq<u8>) -> bool {
    &&& root_at(roots, root) matches Some(RootScan::Directory(scan))
    &&& !(scan is Failed)
}

/// A root that cannot be read is an error exactly where roots have to exist;
/// else it gives no file, and is reported unless it is simply not there.
pub proof fn required_roots_must_be_readable(
    options: OptionsView,
    roots: Seq<(UnixPath, RootScan)>,
    root: Seq<u8>,
)
    ensures
        root_files(options, roots, root) is Err <==> options.require_existing_roots
            && !readable_root(roots, root),
        root_files(options, roots, root) matches Err(e) ==> (
        e matches DiscoveryErrorView::RequiredRootUnavailable { path, .. } && path == root),
        !options.require_existing_roots && !readable_root(roots, root) ==> {
            let found = root_files(options, roots, root)->Ok_0;
            &&& found.0.len() == 0
            &&& found.1.len() == 0 <==> root_at(roots, root) is None || root_at(
                roots,
                root,
            )->0 is Missing
            &&& found.1.len() <= 1
            &&& found.1.len() == 1 ==> found.1[0].path == root
        },
{
}

} // verus!
