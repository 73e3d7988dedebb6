//! Scanning the XDG `applications` directories.
use vstd::prelude::*;
use vstd::string::StrSliceExecFns;
use vstd::string::StringExecFns;
use vstd::utf8::{decode_utf8, encode_utf8, valid_utf8};

use super::desktop_entry::{
    desktop_entry, entry_error_text, parse_desktop_entry, resolved, DesktopEntry, DesktopEntryView,
};
use super::exec_parser::{exec_command, exec_error_text, parse_exec};
use super::resolver::{resolution, resolution_error_text, ExecutableResolver};
use super::types::{
    category_rank, severity_rank, skip_warning, ApplicationView, DiscoveredApplication,
    DiscoveryError, DiscoveryErrorView, DiscoveryReport, DiscoveryWarning, DiscoveryWarningCategory,
    DiscoveryWarningSeverity, ReportView, WarningView,
};
use crate::order::{stable_sort, stable_sorted};
use crate::path::{
    child, components, copy_paths, joined, lossy_text, optional_path, path_before, path_text,
    same_path, utf8, utf8_error_text, Component, ComponentView, UnixPath,
};
use crate::text::{
    equal_ignoring_case, group_views, is_before, join, join_text, optional_text_view,
    same_ignoring_case, same_text, text_before, trim, trim_text, views,
};

verus! {

/// Inputs and filtering policy for desktop application discovery.
#[derive(Debug)]
pub struct DiscoveryOptions {
    /// XDG user data root. The scanner reads its `applications` child.
    pub data_home: Option<UnixPath>,
    /// Ordered XDG system data roots. Each `applications` child is scanned.
    pub data_dirs: Vec<UnixPath>,
    /// Search path used to resolve bare `Exec` and `TryExec` names.
    pub executable_path: Vec<UnixPath>,
    /// Active locale used for localized names.
    pub locale: Option<String>,
    /// Active desktop names, normally parsed from `XDG_CURRENT_DESKTOP`.
    pub current_desktops: Vec<String>,
    /// Include `NoDisplay=true` entries. `Hidden=true` overrides remain suppressed.
    pub include_no_display: bool,
    /// Ignore `OnlyShowIn` and `NotShowIn` filtering.
    pub ignore_desktop_filter: bool,
    /// Treat every configured `applications` directory as required input.
    pub require_existing_roots: bool,
}

/// Discovery options by their contents.
pub struct OptionsView {
    pub data_home: Option<Seq<u8>>,
    pub data_dirs: Seq<Seq<u8>>,
    pub executable_path: Seq<Seq<u8>>,
    pub locale: Option<Seq<char>>,
    pub current_desktops: Seq<Seq<char>>,
    pub include_no_display: bool,
    pub ignore_desktop_filter: bool,
    pub require_existing_roots: bool,
}

impl View for DiscoveryOptions {
    type V = OptionsView;

    open spec fn view(&self) -> OptionsView {
        OptionsView {
            data_home: optional_path(self.data_home),
            data_dirs: views(self.data_dirs@),
            executable_path: views(self.executable_path@),
            locale: optional_text_view(self.locale),
            current_desktops: views(self.current_desktops@),
            include_no_display: self.include_no_display,
            ignore_desktop_filter: self.ignore_desktop_filter,
            require_existing_roots: self.require_existing_roots,
        }
    }
}

/// What kind of thing a directory entry is.
#[derive(Debug)]
pub enum EntryKind {
    Directory(DirectoryScan),
    File,
    /// A symbolic link that leads to a regular file.
    SymlinkToFile,
    Other,
    /// The type could not be inspected; the system's message.
    Unknown(String),
}

/// One entry of a scanned directory.
#[derive(Debug)]
pub enum ScanEntry {
    Entry { name: UnixPath, kind: EntryKind },
    /// The entry could not be read; the system's message.
    Failed(String),
}

/// A directory and all that is below it.
#[derive(Debug)]
pub enum DirectoryScan {
    Entries(Vec<ScanEntry>),
    /// The directory could not be read; the system's message.
    Failed(String),
}

/// What stands at an `applications` path.
#[derive(Debug)]
pub enum RootScan {
    Directory(DirectoryScan),
    NotDirectory,
    /// There is nothing; the system's message.
    Missing(String),
    /// The path could not be inspected; the system's message.
    Failed(String),
}

/// The outcome of reading a file.
#[derive(Debug)]
pub enum BytesRead {
    Bytes(Vec<u8>),
    /// The file could not be read; the system's message.
    Failed(String),
}

/// What the file system holds at the paths that a scan looks at.
#[derive(Debug)]
pub struct DiscoverySnapshot {
    /// The configured `applications` directories.
    pub roots: Vec<(UnixPath, RootScan)>,
    /// The contents of desktop files.
    pub files: Vec<(UnixPath, BytesRead)>,
    /// The paths at which an executable file stands.
    pub executables: Vec<UnixPath>,
}

pub open spec fn no_such_file() -> Seq<char> {
    "No such file or directory (os error 2)"@
}

/// What stands at a root; nothing where it was not looked at.
pub open spec fn root_at(roots: Seq<(UnixPath, RootScan)>, path: Seq<u8>) -> Option<RootScan>
    decreases roots.len(),
{
    if roots.len() == 0 {
        None
    } else if roots.last().0@ == path {
        Some(roots.last().1)
    } else {
        root_at(roots.drop_last(), path)
    }
}

/// What reading a file gives; nothing where it was not read.
pub open spec fn bytes_at(files: Seq<(UnixPath, BytesRead)>, path: Seq<u8>) -> Option<BytesRead>
    decreases files.len(),
{
    if files.len() == 0 {
        None
    } else if files.last().0@ == path {
        Some(files.last().1)
    } else {
        bytes_at(files.drop_last(), path)
    }
}

impl DiscoverySnapshot {
    fn root<'a>(&'a self, path: &UnixPath) -> (out: Option<&'a RootScan>)
        ensures
            match out {
                Some(scan) => root_at(self.roots@, path@) == Some(*scan),
                None => root_at(self.roots@, path@) is None,
            },
    {
        let ghost all = self.roots@;
        let mut i: usize = self.roots.len();
        assert(all.take(all.len() as int) =~= all);
        while i > 0
            invariant
                i <= self.roots@.len(),
                all == self.roots@,
                root_at(all, path@) == root_at(all.take(i as int), path@),
            decreases i,
        {
            assert(all.take(i as int).drop_last() =~= all.take(i - 1));
            if self.roots[i - 1].0.same(path) {
                return Some(&self.roots[i - 1].1);
            }
            i -= 1;
        }
        None
    }

    fn bytes<'a>(&'a self, path: &UnixPath) -> (out: Option<&'a BytesRead>)
        ensures
            match out {
                Some(read) => bytes_at(self.files@, path@) == Some(*read),
                None => bytes_at(self.files@, path@) is None,
            },
    {
        let ghost all = self.files@;
        let mut i: usize = self.files.len();
        assert(all.take(all.len() as int) =~= all);
        while i > 0
            invariant
                i <= self.files@.len(),
                all == self.files@,
                bytes_at(all, path@) == bytes_at(all.take(i as int), path@),
            decreases i,
        {
            assert(all.take(i as int).drop_last() =~= all.take(i - 1));
            if self.files[i - 1].0.same(path) {
                return Some(&self.files[i - 1].1);
            }
            i -= 1;
        }
        None
    }
}

/// A file name that ends in `.desktop` behind at least one byte.
pub open spec fn is_desktop_name(name: Seq<u8>) -> bool {
    name.len() > 8 && name.skip(name.len() - 8) == encode_utf8(".desktop"@)
}

fn has_desktop_name(name: &UnixPath) -> (out: bool)
    ensures
        out == is_desktop_name(name@),
{
    let suffix = UnixPath::from_text(".desktop");
    proof {
        reveal_strlit(".desktop");
        vstd::utf8::is_ascii_chars_encode_utf8(".desktop"@);
        assert(suffix@.len() == 8);
    }
    let len: usize = name.bytes.len();
    if len <= 8 {
        return false;
    }
    let mut i: usize = 0;
    while i < 8
        invariant
            i <= 8,
            8 < len == name.bytes@.len(),
            suffix.bytes@.len() == 8,
            suffix.bytes@ == encode_utf8(".desktop"@),
            forall|k: int| 0 <= k < i ==> name.bytes@[len - 8 + k] == suffix.bytes@[k],
        decreases 8 - i,
    {
        if name.bytes[len - 8 + i] != suffix.bytes[i] {
            assert(name@.skip(len - 8)[i as int] != suffix@[i as int]);
            return false;
        }
        i += 1;
    }
    assert(name@.skip(len - 8) =~= suffix@);
    true
}

pub open spec fn io_warning(path: Seq<u8>, reason: Seq<char>) -> WarningView {
    skip_warning(
        path,
        DiscoveryWarningCategory::Io,
        DiscoveryWarningSeverity::Warning,
        reason,
    )
}

/// The desktop files below a directory, and what is reported about the rest.
pub open spec fn scanned(directory: Seq<u8>, scan: DirectoryScan) -> (
    Seq<Seq<u8>>,
    Seq<WarningView>,
)
    decreases scan, 0int,
{
    match scan {
        DirectoryScan::Failed(message) => (
            Seq::empty(),
            seq![io_warning(directory, "directory could not be read: "@ + message@)],
        ),
        DirectoryScan::Entries(entries) => scanned_entries(
            directory,
            entries,
            entries@.len() as int,
        ),
    }
}

/// What the first entries of a directory give.
pub open spec fn scanned_entries(directory: Seq<u8>, entries: Vec<ScanEntry>, count: int) -> (
    Seq<Seq<u8>>,
    Seq<WarningView>,
)
    decreases entries, count,
{
    if count <= 0 || count > entries@.len() {
        (Seq::empty(), Seq::empty())
    } else {
        let front = scanned_entries(directory, entries, count - 1);
        let last = scanned_entry(directory, entries[count - 1]);
        (front.0 + last.0, front.1 + last.1)
    }
}

/// What one entry of a directory gives.
pub open spec fn scanned_entry(directory: Seq<u8>, entry: ScanEntry) -> (
    Seq<Seq<u8>>,
    Seq<WarningView>,
)
    decreases entry, 0int,
{
    match entry {
        ScanEntry::Failed(message) => (
            Seq::empty(),
            seq![io_warning(directory, "directory entry could not be read: "@ + message@)],
        ),
        ScanEntry::Entry { name, kind } => match kind {
            EntryKind::Unknown(message) => (
                Seq::empty(),
                seq![
                    io_warning(
                        joined(directory, name@),
                        "file type could not be inspected: "@ + message@,
                    ),
                ],
            ),
            EntryKind::Directory(inner) => scanned(joined(directory, name@), inner),
            EntryKind::Other => (Seq::empty(), Seq::empty()),
            EntryKind::File | EntryKind::SymlinkToFile => (
                if is_desktop_name(name@) {
                    seq![joined(directory, name@)]
                } else {
                    Seq::empty()
                },
                Seq::empty(),
            ),
        },
    }
}

fn warn(
    warnings: &mut Vec<DiscoveryWarning>,
    path: &UnixPath,
    category: DiscoveryWarningCategory,
    severity: DiscoveryWarningSeverity,
    reason: String,
)
    ensures
        views(final(warnings)@) == views(old(warnings)@).push(
            skip_warning(path@, category, severity, reason@),
        ),
{
    broadcast use group_views;

    warnings.push(DiscoveryWarning::skipped(path, category, severity, reason));
}

fn collect_desktop_files(
    directory: &UnixPath,
    scan: &DirectoryScan,
    files: &mut Vec<UnixPath>,
    warnings: &mut Vec<DiscoveryWarning>,
)
    ensures
        views(final(files)@) == views(old(files)@) + scanned(directory@, *scan).0,
        views(final(warnings)@) == views(old(warnings)@) + scanned(directory@, *scan).1,
    decreases *scan,
{
    broadcast use group_views;

    let ghost files_before = views(files@);
    let ghost warnings_before = views(warnings@);
    match scan {
        DirectoryScan::Failed(message) => {
            warn(
                warnings,
                directory,
                DiscoveryWarningCategory::Io,
                DiscoveryWarningSeverity::Warning,
                "directory could not be read: ".to_owned().concat(message.as_str()),
            );
        },
        DirectoryScan::Entries(entries) => {
            assert(decreases_to!(*scan => scan->Entries_0));
            assert(files_before + scanned_entries(directory@, *entries, 0).0 =~= files_before);
            assert(warnings_before + scanned_entries(directory@, *entries, 0).1
                =~= warnings_before);
            let mut i: usize = 0;
            while i < entries.len()
                invariant
                    i <= entries@.len(),
                    decreases_to!(*scan => *entries),
                    views(files@) == files_before + scanned_entries(
                        directory@,
                        *entries,
                        i as int,
                    ).0,
                    views(warnings@) == warnings_before + scanned_entries(
                        directory@,
                        *entries,
                        i as int,
                    ).1,
                decreases entries.len() - i,
            {
                assert(decreases_to!(*entries => entries@[i as int]));
                collect_entry(directory, &entries[i], files, warnings);
                i += 1;
                let ghost after = scanned_entries(directory@, *entries, i as int);
                assert(views(files@) =~= files_before + after.0);
                assert(views(warnings@) =~= warnings_before + after.1);
            }
        },
    }
}

fn collect_entry(
    directory: &UnixPath,
    entry: &ScanEntry,
    files: &mut Vec<UnixPath>,
    warnings: &mut Vec<DiscoveryWarning>,
)
    ensures
        views(final(files)@) == views(old(files)@) + scanned_entry(directory@, *entry).0,
        views(final(warnings)@) == views(old(warnings)@) + scanned_entry(directory@, *entry).1,
    decreases *entry,
{
    broadcast use group_views;

    match entry {
        ScanEntry::Failed(message) => {
            warn(
                warnings,
                directory,
                DiscoveryWarningCategory::Io,
                DiscoveryWarningSeverity::Warning,
                "directory entry could not be read: ".to_owned().concat(message.as_str()),
            );
        },
        ScanEntry::Entry { name, kind } => {
            let path = directory.join_path(name);
            match kind {
                EntryKind::Unknown(message) => {
                    warn(
                        warnings,
                        &path,
                        DiscoveryWarningCategory::Io,
                        DiscoveryWarningSeverity::Warning,
                        "file type could not be inspected: ".to_owned().concat(message.as_str()),
                    );
                },
                EntryKind::Directory(inner) => {
                    collect_desktop_files(&path, inner, files, warnings);
                },
                EntryKind::Other => {},
                EntryKind::File | EntryKind::SymlinkToFile => {
                    if has_desktop_name(name) {
                        files.push(path);
                    }
                },
            }
        },
    }
}

/// The texts of normal components; none where another kind stands there.
pub open spec fn component_texts(parts: Seq<ComponentView>) -> Option<Seq<Seq<char>>>
    decreases parts.len(),
{
    if parts.len() == 0 {
        Some(Seq::empty())
    } else {
        match component_texts(parts.drop_last()) {
            None => None,
            Some(front) => match parts.last() {
                ComponentView::Normal(name) => match path_text(name) {
                    Some(text) => Some(front.push(text)),
                    None => None,
                },
                _ => None,
            },
        }
    }
}

/// The ID of a desktop file below a root: the components behind the root,
/// with hyphens between them.
pub open spec fn desktop_id(root: Seq<u8>, path: Seq<u8>) -> Option<Seq<char>> {
    let base = components(root);
    let all = components(path);
    if base.len() < all.len() && all.take(base.len() as int) == base {
        match component_texts(all.skip(base.len() as int)) {
            Some(parts) => Some(join(parts, "-"@)),
            None => None,
        }
    } else {
        None
    }
}

proof fn lemma_texts_fail(parts: Seq<ComponentView>, k: int)
    requires
        0 <= k <= parts.len(),
        component_texts(parts.take(k)) is None,
    ensures
        component_texts(parts) is None,
    decreases parts.len() - k,
{
    if k == parts.len() {
        assert(parts.take(k) =~= parts);
    } else {
        assert(parts.take(k + 1).drop_last() =~= parts.take(k));
        lemma_texts_fail(parts, k + 1);
    }
}

/// The ID of a desktop file below a root.
pub fn desktop_file_id(root: &UnixPath, path: &UnixPath) -> (out: Option<String>)
    ensures
        optional_text_view(out) == desktop_id(root@, path@),
{
    broadcast use group_views;

    let base = root.components();
    let all = path.components();
    let ghost b = views(base@);
    let ghost a = views(all@);
    if base.len() >= all.len() {
        return None;
    }
    let mut i: usize = 0;
    while i < base.len()
        invariant
            i <= base@.len() < all@.len(),
            b == views(base@),
            a == views(all@),
            b == components(root@),
            a == components(path@),
            forall|k: int| 0 <= k < i ==> #[trigger] a[k] == b[k],
        decreases base.len() - i,
    {
        assert(a[i as int] == all@[i as int]@ && b[i as int] == base@[i as int]@);
        if !crate::path::same_component(&all[i], &base[i]) {
            assert(a.take(b.len() as int)[i as int] != b[i as int]);
            return None;
        }
        i += 1;
    }
    assert(a.take(b.len() as int) =~= b);
    let ghost rest = a.skip(b.len() as int);
    let mut parts: Vec<String> = Vec::new();
    let start: usize = base.len();
    i = start;
    assert(rest.take(0) =~= Seq::empty());
    while i < all.len()
        invariant
            start <= i <= all@.len(),
            start == b.len(),
            a == views(all@),
            b == components(root@),
            a == components(path@),
            b.len() < a.len(),
            a.take(b.len() as int) == b,
            rest == a.skip(b.len() as int),
            component_texts(rest.take(i - start)) == Some(views(parts@)),
        decreases all.len() - i,
    {
        let ghost upto = rest.take(i - start + 1);
        assert(upto.drop_last() =~= rest.take(i - start));
        assert(upto.last() == all@[i as int]@);
        match &all[i] {
            Component::Normal(name) => match utf8(name) {
                Ok(text) => {
                    let ghost before = views(parts@);
                    parts.push(text);
                    assert(views(parts@) == before.push(text@));
                    assert(component_texts(upto) == Some(before.push(text@)));
                },
                Err(_) => {
                    proof {
                        lemma_texts_fail(rest, i - start + 1);
                    }
                    return None;
                },
            },
            _ => {
                proof {
                    lemma_texts_fail(rest, i - start + 1);
                }
                return None;
            },
        }
        i += 1;
    }
    assert(rest.take(rest.len() as int) =~= rest);
    Some(join_text(&parts, "-"))
}

/// A desktop name is one of the active ones, but for the case of letters.
pub open spec fn matches_desktop(name: Seq<char>, current: Seq<Seq<char>>) -> bool {
    exists|i: int| 0 <= i < current.len() && same_ignoring_case(name, #[trigger] current[i])
}

pub open spec fn any_matches(names: Seq<Seq<char>>, current: Seq<Seq<char>>) -> bool {
    exists|i: int| 0 <= i < names.len() && matches_desktop(#[trigger] names[i], current)
}

/// An entry shows on the active desktops.
pub open spec fn visible(entry: DesktopEntryView, current: Seq<Seq<char>>) -> bool {
    &&& entry.only_show_in.len() == 0 || any_matches(entry.only_show_in, current)
    &&& !any_matches(entry.not_show_in, current)
}

fn desktop_matches(name: &str, current: &Vec<String>) -> (out: bool)
    ensures
        out == matches_desktop(name@, views(current@)),
{
    let ghost all = views(current@);
    let mut i: usize = 0;
    while i < current.len()
        invariant
            i <= current@.len(),
            all == views(current@),
            forall|k: int| 0 <= k < i ==> !same_ignoring_case(name@, #[trigger] all[k]),
        decreases current.len() - i,
    {
        assert(all[i as int] == current@[i as int]@);
        if equal_ignoring_case(name, current[i].as_str()) {
            assert(same_ignoring_case(name@, all[i as int]));
            return true;
        }
        i += 1;
    }
    false
}

fn any_desktop_matches(names: &Vec<String>, current: &Vec<String>) -> (out: bool)
    ensures
        out == any_matches(views(names@), views(current@)),
{
    let ghost all = views(names@);
    let mut i: usize = 0;
    while i < names.len()
        invariant
            i <= names@.len(),
            all == views(names@),
            forall|k: int| 0 <= k < i ==> !matches_desktop(#[trigger] all[k], views(current@)),
        decreases names.len() - i,
    {
        assert(all[i as int] == names@[i as int]@);
        if desktop_matches(names[i].as_str(), current) {
            assert(matches_desktop(all[i as int], views(current@)));
            return true;
        }
        i += 1;
    }
    false
}

/// Whether an entry shows on the active desktops.
pub fn desktop_is_visible(entry: &DesktopEntry, options: &DiscoveryOptions) -> (out: bool)
    ensures
        out == visible(entry@, options@.current_desktops),
{
    if entry.only_show_in.len() > 0 && !any_desktop_matches(
        &entry.only_show_in,
        &options.current_desktops,
    ) {
        return false;
    }
    !any_desktop_matches(&entry.not_show_in, &options.current_desktops)
}

/// The entry in a desktop file, or what is reported where there is none.
pub open spec fn file_entry(files: Seq<(UnixPath, BytesRead)>, path: Seq<u8>) -> Result<
    DesktopEntryView,
    WarningView,
> {
    match bytes_at(files, path) {
        None => Err(io_warning(path, "desktop file could not be read: "@ + no_such_file())),
        Some(BytesRead::Failed(message)) => Err(
            io_warning(path, "desktop file could not be read: "@ + message@),
        ),
        Some(BytesRead::Bytes(bytes)) => if !valid_utf8(bytes@) {
            Err(
                skip_warning(
                    path,
                    DiscoveryWarningCategory::InvalidUtf8,
                    DiscoveryWarningSeverity::Warning,
                    "desktop file is not valid UTF-8: "@ + utf8_error_text(bytes@),
                ),
            )
        } else {
            match desktop_entry(decode_utf8(bytes@)) {
                Ok(entry) => Ok(entry),
                Err(error) => Err(
                    skip_warning(
                        path,
                        DiscoveryWarningCategory::DesktopEntry,
                        DiscoveryWarningSeverity::Warning,
                        "desktop entry is malformed: "@ + entry_error_text(error),
                    ),
                ),
            }
        },
    }
}

pub(crate) fn read_entry(snapshot: &DiscoverySnapshot, path: &UnixPath) -> (out: Result<
    DesktopEntry,
    DiscoveryWarning,
>)
    ensures
        match out {
            Ok(entry) => file_entry(snapshot.files@, path@) == Ok::<DesktopEntryView, WarningView>(
                entry@,
            ),
            Err(w) => file_entry(snapshot.files@, path@) == Err::<DesktopEntryView, WarningView>(
                w@,
            ),
        },
{
    let bytes = match snapshot.bytes(path) {
        None => {
            return Err(
                DiscoveryWarning::skipped(
                    path,
                    DiscoveryWarningCategory::Io,
                    DiscoveryWarningSeverity::Warning,
                    "desktop file could not be read: ".to_owned().concat(
                        "No such file or directory (os error 2)",
                    ),
                ),
            );
        },
        Some(BytesRead::Failed(message)) => {
            return Err(
                DiscoveryWarning::skipped(
                    path,
                    DiscoveryWarningCategory::Io,
                    DiscoveryWarningSeverity::Warning,
                    "desktop file could not be read: ".to_owned().concat(message.as_str()),
                ),
            );
        },
        Some(BytesRead::Bytes(bytes)) => bytes,
    };
    let input = match utf8(bytes) {
        Ok(input) => input,
        Err(error) => {
            return Err(
                DiscoveryWarning::skipped(
                    path,
                    DiscoveryWarningCategory::InvalidUtf8,
                    DiscoveryWarningSeverity::Warning,
                    "desktop file is not valid UTF-8: ".to_owned().concat(error.as_str()),
                ),
            );
        },
    };
    match parse_desktop_entry(input.as_str()) {
        Ok(entry) => Ok(entry),
        Err(error) => Err(
            DiscoveryWarning::skipped(
                path,
                DiscoveryWarningCategory::DesktopEntry,
                DiscoveryWarningSeverity::Warning,
                "desktop entry is malformed: ".to_owned().concat(error.message().as_str()),
            ),
        ),
    }
}

/// A text that holds more than white space.
pub open spec fn nonblank(text: Option<Seq<char>>) -> Option<Seq<char>> {
    match text {
        Some(t) => if trim(t).len() == 0 {
            None
        } else {
            Some(t)
        },
        None => None,
    }
}

pub(crate) fn keep_nonblank(text: Option<String>) -> (out: Option<String>)
    ensures
        optional_text_view(out) == nonblank(optional_text_view(text)),
{
    match text {
        Some(t) => if trim_text(t.as_str()).is_empty() {
            None
        } else {
            Some(t)
        },
        None => None,
    }
}

/// The application that an entry describes, or why it is left out.
pub open spec fn application(
    options: OptionsView,
    executables: Seq<Seq<u8>>,
    id: Seq<char>,
    file: Seq<u8>,
    priority: int,
    entry: DesktopEntryView,
) -> Result<ApplicationView, WarningView> {
    let name = nonblank(resolved(entry.names, options.locale));
    let wanted = entry.try_exec;
    if entry.hidden {
        Err(
            skip_warning(
                file,
                DiscoveryWarningCategory::Visibility,
                DiscoveryWarningSeverity::Info,
                "Hidden=true suppresses this desktop ID at every lower-priority source"@,
            ),
        )
    } else if entry.entry_type != Some("Application"@) {
        Err(
            skip_warning(
                file,
                DiscoveryWarningCategory::DesktopEntry,
                DiscoveryWarningSeverity::Info,
                "Type must be Application"@,
            ),
        )
    } else if entry.only_show_in.len() > 0 && entry.not_show_in.len() > 0 {
        Err(
            skip_warning(
                file,
                DiscoveryWarningCategory::DesktopEntry,
                DiscoveryWarningSeverity::Warning,
                "OnlyShowIn and NotShowIn must not both be present"@,
            ),
        )
    } else if entry.no_display && !options.include_no_display {
        Err(
            skip_warning(
                file,
                DiscoveryWarningCategory::Visibility,
                DiscoveryWarningSeverity::Info,
                "NoDisplay=true is excluded by the default discovery policy"@,
            ),
        )
    } else if !options.ignore_desktop_filter && !visible(entry, options.current_desktops) {
        Err(
            skip_warning(
                file,
                DiscoveryWarningCategory::Visibility,
                DiscoveryWarningSeverity::Info,
                "entry is excluded by OnlyShowIn/NotShowIn for the active desktop"@,
            ),
        )
    } else if name is None {
        Err(
            skip_warning(
                file,
                DiscoveryWarningCategory::DesktopEntry,
                DiscoveryWarningSeverity::Warning,
                "Name is missing or empty for the active locale and fallback"@,
            ),
        )
    } else if entry.command is None {
        Err(
            skip_warning(
                file,
                DiscoveryWarningCategory::DesktopEntry,
                DiscoveryWarningSeverity::Warning,
                "Exec is missing or empty"@,
            ),
        )
    } else if wanted is Some && resolution(
        options.executable_path,
        executables,
        wanted->0,
    ) is Err {
        Err(
            skip_warning(
                file,
                DiscoveryWarningCategory::TryExec,
                DiscoveryWarningSeverity::Warning,
                "TryExec `"@ + wanted->0 + "` is unavailable: "@ + resolution_error_text(
                    resolution(options.executable_path, executables, wanted->0)->Err_0,
                ),
            ),
        )
    } else {
        match exec_command(entry.command->0, name->0, file) {
            Err(error) => Err(
                skip_warning(
                    file,
                    DiscoveryWarningCategory::Exec,
                    DiscoveryWarningSeverity::Warning,
                    "invalid Exec value: "@ + exec_error_text(error),
                ),
            ),
            Ok(parsed) => match resolution(
                options.executable_path,
                executables,
                parsed.executable,
            ) {
                Err(error) => Err(
                    skip_warning(
                        file,
                        DiscoveryWarningCategory::Executable,
                        DiscoveryWarningSeverity::Warning,
                        "launch executable `"@ + parsed.executable + "` is unavailable: "@
                            + resolution_error_text(error),
                    ),
                ),
                Ok(executable) => Ok(
                    ApplicationView {
                        desktop_id: id,
                        name: name->0,
                        generic_name: nonblank(resolved(entry.generic_names, options.locale)),
                        executable,
                        arguments: parsed.arguments,
                        icon: entry.icon,
                        desktop_file: file,
                        terminal: entry.terminal,
                        categories: entry.categories,
                        startup_wm_class: entry.startup_wm_class,
                        source_priority: priority,
                        no_display: entry.no_display,
                    },
                ),
            },
        }
    }
}

fn info(path: &UnixPath, category: DiscoveryWarningCategory, reason: &str) -> (out: DiscoveryWarning)
    ensures
        out@ == skip_warning(path@, category, DiscoveryWarningSeverity::Info, reason@),
{
    DiscoveryWarning::skipped(path, category, DiscoveryWarningSeverity::Info, reason.to_owned())
}

fn caution(path: &UnixPath, category: DiscoveryWarningCategory, reason: String) -> (out:
    DiscoveryWarning)
    ensures
        out@ == skip_warning(path@, category, DiscoveryWarningSeverity::Warning, reason@),
{
    DiscoveryWarning::skipped(path, category, DiscoveryWarningSeverity::Warning, reason)
}

fn is_application_type(entry: &DesktopEntry) -> (out: bool)
    ensures
        out == (entry@.entry_type == Some("Application"@)),
{
    match &entry.entry_type {
        Some(text) => same_text(text.as_str(), "Application"),
        None => false,
    }
}

/// Why an entry is left out before its command is looked at.
fn check_visibility(options: &DiscoveryOptions, file: &UnixPath, entry: &DesktopEntry) -> (out:
    Option<DiscoveryWarning>)
    ensures
        match out {
            Some(w) => forall|executables: Seq<Seq<u8>>, id: Seq<char>, priority: int| #[trigger]
                application(options@, executables, id, file@, priority, entry@) == Err::<
                    ApplicationView,
                    WarningView,
                >(w@),
            None => {
                &&& !entry@.hidden
                &&& entry@.entry_type == Some("Application"@)
                &&& !(entry@.only_show_in.len() > 0 && entry@.not_show_in.len() > 0)
                &&& !(entry@.no_display && !options@.include_no_display)
                &&& !(!options@.ignore_desktop_filter && !visible(
                    entry@,
                    options@.current_desktops,
                ))
            },
        },
{
    if entry.hidden {
        return Some(
            info(
                file,
                DiscoveryWarningCategory::Visibility,
                "Hidden=true suppresses this desktop ID at every lower-priority source",
            ),
        );
    }
    if !is_application_type(entry) {
        return Some(
            info(file, DiscoveryWarningCategory::DesktopEntry, "Type must be Application"),
        );
    }
    if entry.only_show_in.len() > 0 && entry.not_show_in.len() > 0 {
        return Some(
            caution(
                file,
                DiscoveryWarningCategory::DesktopEntry,
                "OnlyShowIn and NotShowIn must not both be present".to_owned(),
            ),
        );
    }
    if entry.no_display && !options.include_no_display {
        return Some(
            info(
                file,
                DiscoveryWarningCategory::Visibility,
                "NoDisplay=true is excluded by the default discovery policy",
            ),
        );
    }
    if !options.ignore_desktop_filter && !desktop_is_visible(entry, options) {
        return Some(
            info(
                file,
                DiscoveryWarningCategory::Visibility,
                "entry is excluded by OnlyShowIn/NotShowIn for the active desktop",
            ),
        );
    }
    None
}

fn build_application(
    options: &DiscoveryOptions,
    resolver: &ExecutableResolver,
    executables: &Vec<UnixPath>,
    desktop_id: String,
    desktop_file: &UnixPath,
    source_priority: usize,
    entry: DesktopEntry,
) -> (out: Result<DiscoveredApplication, DiscoveryWarning>)
    requires
        views(resolver.search_path@) == options@.executable_path,
    ensures
        match out {
            Ok(found) => application(
                options@,
                views(executables@),
                desktop_id@,
                desktop_file@,
                source_priority as int,
                entry@,
            ) == Ok::<ApplicationView, WarningView>(found@),
            Err(w) => application(
                options@,
                views(executables@),
                desktop_id@,
                desktop_file@,
                source_priority as int,
                entry@,
            ) == Err::<ApplicationView, WarningView>(w@),
        },
{
    match check_visibility(options, desktop_file, &entry) {
        Some(w) => {
            return Err(w);
        },
        None => {},
    }
    let name = match keep_nonblank(entry.names.resolve(&options.locale)) {
        Some(name) => name,
        None => {
            return Err(
                caution(
                    desktop_file,
                    DiscoveryWarningCategory::DesktopEntry,
                    "Name is missing or empty for the active locale and fallback".to_owned(),
                ),
            );
        },
    };
    let command = match &entry.command {
        Some(command) => command,
        None => {
            return Err(
                caution(
                    desktop_file,
                    DiscoveryWarningCategory::DesktopEntry,
                    "Exec is missing or empty".to_owned(),
                ),
            );
        },
    };
    match &entry.try_exec {
        Some(wanted) => match resolver.resolve(wanted.as_str(), executables) {
            Ok(_) => {},
            Err(error) => {
                return Err(
                    caution(
                        desktop_file,
                        DiscoveryWarningCategory::TryExec,
                        "TryExec `".to_owned().concat(wanted.as_str()).concat(
                            "` is unavailable: ",
                        ).concat(error.message().as_str()),
                    ),
                );
            },
        },
        None => {},
    }
    let parsed = match parse_exec(command.as_str(), name.as_str(), desktop_file) {
        Ok(parsed) => parsed,
        Err(error) => {
            return Err(
                caution(
                    desktop_file,
                    DiscoveryWarningCategory::Exec,
                    "invalid Exec value: ".to_owned().concat(error.message().as_str()),
                ),
            );
        },
    };
    let executable = match resolver.resolve(parsed.executable.as_str(), executables) {
        Ok(executable) => executable,
        Err(error) => {
            return Err(
                caution(
                    desktop_file,
                    DiscoveryWarningCategory::Executable,
                    "launch executable `".to_owned().concat(parsed.executable.as_str()).concat(
                        "` is unavailable: ",
                    ).concat(error.message().as_str()),
                ),
            );
        },
    };
    let generic_name = keep_nonblank(entry.generic_names.resolve(&options.locale));
    Ok(
        DiscoveredApplication {
            desktop_id,
            name,
            generic_name,
            executable,
            arguments: parsed.arguments,
            icon: entry.icon,
            desktop_file: desktop_file.clone(),
            terminal: entry.terminal,
            categories: entry.categories,
            startup_wm_class: entry.startup_wm_class,
            source_priority,
            no_display: entry.no_display,
        },
    )
}

/// The configured data roots, in the order of precedence.
pub open spec fn configured_roots(options: OptionsView) -> Seq<Seq<u8>> {
    match options.data_home {
        Some(home) => seq![home] + options.data_dirs,
        None => options.data_dirs,
    }
}

pub open spec fn holds_root(roots: Seq<(int, Seq<u8>)>, path: Seq<u8>) -> bool {
    exists|i: int| 0 <= i < roots.len() && same_path((#[trigger] roots[i]).1, path)
}

/// The `applications` directories of data roots, each once, with the
/// precedence of its first mention.
pub open spec fn application_roots(configured: Seq<Seq<u8>>) -> Result<
    Seq<(int, Seq<u8>)>,
    DiscoveryErrorView,
>
    decreases configured.len(),
{
    if configured.len() == 0 {
        Ok(Seq::empty())
    } else {
        let priority = configured.len() - 1;
        match application_roots(configured.drop_last()) {
            Err(e) => Err(e),
            Ok(front) => if configured.last().len() == 0 {
                Err(DiscoveryErrorView::EmptyDiscoveryRoot { priority })
            } else {
                let path = child(configured.last(), "applications"@);
                if holds_root(front, path) {
                    Ok(front)
                } else {
                    Ok(front.push((priority, path)))
                }
            },
        }
    }
}

/// The directories to scan, or why there are none.
pub open spec fn discovery_roots(options: OptionsView) -> Result<
    Seq<(int, Seq<u8>)>,
    DiscoveryErrorView,
> {
    if configured_roots(options).len() == 0 {
        Err(DiscoveryErrorView::NoDiscoveryRoots)
    } else {
        application_roots(configured_roots(options))
    }
}

proof fn lemma_roots_error(configured: Seq<Seq<u8>>, k: int)
    requires
        0 <= k <= configured.len(),
        application_roots(configured.take(k)) is Err,
    ensures
        application_roots(configured) == application_roots(configured.take(k)),
    decreases configured.len() - k,
{
    if k == configured.len() {
        assert(configured.take(k) =~= configured);
    } else {
        assert(configured.take(k + 1).drop_last() =~= configured.take(k));
        lemma_roots_error(configured, k + 1);
    }
}

/// An `applications` directory with its precedence.
pub struct ApplicationRoot {
    pub priority: usize,
    pub path: UnixPath,
}

impl View for ApplicationRoot {
    type V = (int, Seq<u8>);

    open spec fn view(&self) -> (int, Seq<u8>) {
        (self.priority as int, self.path@)
    }
}

fn is_known_root(roots: &Vec<ApplicationRoot>, path: &UnixPath) -> (out: bool)
    ensures
        out == holds_root(views(roots@), path@),
{
    let ghost all = views(roots@);
    let mut i: usize = 0;
    while i < roots.len()
        invariant
            i <= roots@.len(),
            all == views(roots@),
            forall|k: int| 0 <= k < i ==> !same_path((#[trigger] all[k]).1, path@),
        decreases roots.len() - i,
    {
        assert(all[i as int] == roots@[i as int]@);
        if roots[i].path.is_same_path(path) {
            assert(same_path(all[i as int].1, path@));
            return true;
        }
        i += 1;
    }
    false
}

fn find_discovery_roots(options: &DiscoveryOptions) -> (out: Result<
    Vec<ApplicationRoot>,
    DiscoveryError,
>)
    ensures
        match out {
            Ok(roots) => discovery_roots(options@) == Ok::<
                Seq<(int, Seq<u8>)>,
                DiscoveryErrorView,
            >(views(roots@)),
            Err(e) => discovery_roots(options@) == Err::<
                Seq<(int, Seq<u8>)>,
                DiscoveryErrorView,
            >(e@),
        },
{
    broadcast use group_views;

    let mut configured: Vec<UnixPath> = Vec::new();
    match &options.data_home {
        Some(home) => {
            configured.push(home.clone());
            assert(views(configured@) =~= seq![home@]);
        },
        None => {},
    }
    let mut directories = copy_paths(&options.data_dirs);
    configured.append(&mut directories);
    let ghost all = views(configured@);
    assert(all =~= configured_roots(options@));
    if configured.len() == 0 {
        return Err(DiscoveryError::NoDiscoveryRoots);
    }
    let mut roots: Vec<ApplicationRoot> = Vec::new();
    let mut priority: usize = 0;
    assert(all.take(0) =~= Seq::empty());
    while priority < configured.len()
        invariant
            priority <= configured@.len(),
            all == views(configured@),
            all == configured_roots(options@),
            all.len() > 0,
            application_roots(all.take(priority as int)) == Ok::<
                Seq<(int, Seq<u8>)>,
                DiscoveryErrorView,
            >(views(roots@)),
        decreases configured.len() - priority,
    {
        let ghost upto = all.take(priority + 1);
        assert(upto.drop_last() =~= all.take(priority as int));
        assert(upto.last() == configured@[priority as int]@);
        if configured[priority].bytes.len() == 0 {
            proof {
                lemma_roots_error(all, priority + 1);
            }
            return Err(DiscoveryError::EmptyDiscoveryRoot { priority });
        }
        let path = configured[priority].join("applications");
        if !is_known_root(&roots, &path) {
            let ghost before = views(roots@);
            let root = ApplicationRoot { priority, path };
            roots.push(root);
            assert(views(roots@) == before.push((priority as int, path@)));
            assert(application_roots(upto) == Ok::<Seq<(int, Seq<u8>)>, DiscoveryErrorView>(
                before.push((priority as int, path@)),
            ));
        }
        priority += 1;
    }
    assert(all.take(all.len() as int) =~= all);
    Ok(roots)
}

/// The desktop files of a root, in path order, and what is reported about it.
pub open spec fn root_files(
    options: OptionsView,
    roots: Seq<(UnixPath, RootScan)>,
    root: Seq<u8>,
) -> Result<(Seq<Seq<u8>>, Seq<WarningView>), DiscoveryErrorView> {
    match root_at(roots, root) {
        None => if options.require_existing_roots {
            Err(
                DiscoveryErrorView::RequiredRootUnavailable { path: root, source: no_such_file() },
            )
        } else {
            Ok((Seq::empty(), Seq::empty()))
        },
        Some(RootScan::Missing(message)) => if options.require_existing_roots {
            Err(DiscoveryErrorView::RequiredRootUnavailable { path: root, source: message@ })
        } else {
            Ok((Seq::empty(), Seq::empty()))
        },
        Some(RootScan::NotDirectory) => if options.require_existing_roots {
            Err(
                DiscoveryErrorView::RequiredRootUnavailable {
                    path: root,
                    source: "path is not a directory"@,
                },
            )
        } else {
            Ok(
                (
                    Seq::empty(),
                    seq![io_warning(root, "configured applications path is not a directory"@)],
                ),
            )
        },
        Some(RootScan::Failed(message)) => if options.require_existing_roots {
            Err(DiscoveryErrorView::RequiredRootUnavailable { path: root, source: message@ })
        } else {
            Ok(
                (
                    Seq::empty(),
                    seq![
                        io_warning(
                            root,
                            "applications directory could not be inspected: "@ + message@,
                        ),
                    ],
                ),
            )
        },
        Some(RootScan::Directory(DirectoryScan::Failed(message))) => {
            if options.require_existing_roots {
                Err(DiscoveryErrorView::RequiredRootUnavailable { path: root, source: message@ })
            } else {
                Ok(
                    (
                        Seq::empty(),
                        seq![
                            io_warning(
                                root,
                                "applications directory could not be read: "@ + message@,
                            ),
                        ],
                    ),
                )
            }
        },
        Some(RootScan::Directory(scan)) => {
            let (files, warnings) = scanned(root, scan);
            Ok((stable_sorted(files, paths_before()), warnings))
        },
    }
}

pub open spec fn paths_before() -> spec_fn(Seq<u8>, Seq<u8>) -> bool {
    |a: Seq<u8>, b: Seq<u8>| path_before(a, b)
}

fn is_path_before(a: &UnixPath, b: &UnixPath) -> (out: bool)
    ensures
        out == path_before(a@, b@),
{
    a.is_before(b)
}

fn sort_paths(paths: Vec<UnixPath>) -> (out: Vec<UnixPath>)
    ensures
        views(out@) == stable_sorted(views(paths@), paths_before()),
{
    let ghost before = |a: UnixPath, b: UnixPath| path_before(a@, b@);
    proof {
        crate::order::lemma_stable_sorted_map(paths@, |p: UnixPath| p@, before, paths_before());
    }
    stable_sort(paths, is_path_before, Ghost(before))
}

fn required(options: &DiscoveryOptions, root: &UnixPath, source: String) -> (out: Result<
    (),
    DiscoveryError,
>)
    ensures
        match out {
            Ok(_) => !options.require_existing_roots,
            Err(e) => options.require_existing_roots && e@
                == (DiscoveryErrorView::RequiredRootUnavailable { path: root@, source: source@ }),
        },
{
    if options.require_existing_roots {
        Err(DiscoveryError::RequiredRootUnavailable { path: root.clone(), source })
    } else {
        Ok(())
    }
}

fn desktop_files(
    options: &DiscoveryOptions,
    snapshot: &DiscoverySnapshot,
    root: &UnixPath,
    warnings: &mut Vec<DiscoveryWarning>,
) -> (out: Result<Vec<UnixPath>, DiscoveryError>)
    ensures
        match out {
            Ok(files) => {
                let expected = root_files(options@, snapshot.roots@, root@);
                &&& expected is Ok
                &&& views(files@) == expected->Ok_0.0
                &&& views(final(warnings)@) == views(old(warnings)@) + expected->Ok_0.1
            },
            Err(e) => root_files(options@, snapshot.roots@, root@) == Err::<
                (Seq<Seq<u8>>, Seq<WarningView>),
                DiscoveryErrorView,
            >(e@),
        },
{
    broadcast use group_views;

    let scan = match snapshot.root(root) {
        None => {
            return match required(
                options,
                root,
                "No such file or directory (os error 2)".to_owned(),
            ) {
                Ok(_) => Ok(Vec::new()),
                Err(e) => Err(e),
            };
        },
        Some(RootScan::Missing(message)) => {
            return match required(options, root, message.clone()) {
                Ok(_) => Ok(Vec::new()),
                Err(e) => Err(e),
            };
        },
        Some(RootScan::NotDirectory) => {
            return match required(options, root, "path is not a directory".to_owned()) {
                Ok(_) => {
                    warn(
                        warnings,
                        root,
                        DiscoveryWarningCategory::Io,
                        DiscoveryWarningSeverity::Warning,
                        "configured applications path is not a directory".to_owned(),
                    );
                    Ok(Vec::new())
                },
                Err(e) => Err(e),
            };
        },
        Some(RootScan::Failed(message)) => {
            return match required(options, root, message.clone()) {
                Ok(_) => {
                    warn(
                        warnings,
                        root,
                        DiscoveryWarningCategory::Io,
                        DiscoveryWarningSeverity::Warning,
                        "applications directory could not be inspected: ".to_owned().concat(
                            message.as_str(),
                        ),
                    );
                    Ok(Vec::new())
                },
                Err(e) => Err(e),
            };
        },
        Some(RootScan::Directory(scan)) => scan,
    };
    match scan {
        DirectoryScan::Failed(message) => match required(options, root, message.clone()) {
            Ok(_) => {
                warn(
                    warnings,
                    root,
                    DiscoveryWarningCategory::Io,
                    DiscoveryWarningSeverity::Warning,
                    "applications directory could not be read: ".to_owned().concat(
                        message.as_str(),
                    ),
                );
                Ok(Vec::new())
            },
            Err(e) => Err(e),
        },
        DirectoryScan::Entries(_) => {
            let mut files: Vec<UnixPath> = Vec::new();
            collect_desktop_files(root, scan, &mut files, warnings);
            assert(views(files@) =~= scanned(root@, *scan).0);
            Ok(sort_paths(files))
        },
    }
}

/// How far a scan has come.
pub struct ScanState {
    pub warnings: Seq<WarningView>,
    pub seen: Seq<(Seq<char>, Seq<u8>)>,
    pub applications: Seq<ApplicationView>,
}

/// The file that has an ID already.
pub open spec fn seen_file(seen: Seq<(Seq<char>, Seq<u8>)>, id: Seq<char>) -> Option<Seq<u8>>
    decreases seen.len(),
{
    if seen.len() == 0 {
        None
    } else if seen.last().0 == id {
        Some(seen.last().1)
    } else {
        seen_file(seen.drop_last(), id)
    }
}

/// A scan with one file more: the first file with an ID decides what becomes
/// of the ID.
pub open spec fn scan_file(
    options: OptionsView,
    snapshot: DiscoverySnapshot,
    root: (int, Seq<u8>),
    state: ScanState,
    file: Seq<u8>,
) -> ScanState {
    match desktop_id(root.1, file) {
        None => ScanState {
            warnings: state.warnings.push(
                skip_warning(
                    file,
                    DiscoveryWarningCategory::DesktopEntry,
                    DiscoveryWarningSeverity::Warning,
                    "desktop-file path cannot be represented as a valid UTF-8 desktop ID"@,
                ),
            ),
            ..state
        },
        Some(id) => match seen_file(state.seen, id) {
            Some(higher) => ScanState {
                warnings: state.warnings.push(
                    skip_warning(
                        file,
                        DiscoveryWarningCategory::Overridden,
                        DiscoveryWarningSeverity::Info,
                        "desktop ID "@ + id + " is overridden by higher-priority "@ + lossy_text(
                            higher,
                        ),
                    ),
                ),
                ..state
            },
            None => {
                let seen = state.seen.push((id, file));
                match file_application(options, snapshot, root.0, id, file) {
                    Ok(found) => ScanState {
                        applications: state.applications.push(found),
                        seen,
                        ..state
                    },
                    Err(w) => ScanState { warnings: state.warnings.push(w), seen, ..state },
                }
            },
        },
    }
}

/// The application that a desktop file describes, or why it is left out.
pub open spec fn file_application(
    options: OptionsView,
    snapshot: DiscoverySnapshot,
    priority: int,
    id: Seq<char>,
    file: Seq<u8>,
) -> Result<ApplicationView, WarningView> {
    match file_entry(snapshot.files@, file) {
        Err(w) => Err(w),
        Ok(entry) => application(
            options,
            views(snapshot.executables@),
            id,
            file,
            priority,
            entry,
        ),
    }
}

pub open spec fn scan_files(
    options: OptionsView,
    snapshot: DiscoverySnapshot,
    root: (int, Seq<u8>),
    state: ScanState,
    files: Seq<Seq<u8>>,
) -> ScanState
    decreases files.len(),
{
    if files.len() == 0 {
        state
    } else {
        scan_file(
            options,
            snapshot,
            root,
            scan_files(options, snapshot, root, state, files.drop_last()),
            files.last(),
        )
    }
}

/// A scan of roots in the order of precedence.
pub open spec fn scan_roots(
    options: OptionsView,
    snapshot: DiscoverySnapshot,
    roots: Seq<(int, Seq<u8>)>,
) -> Result<ScanState, DiscoveryErrorView>
    decreases roots.len(),
{
    if roots.len() == 0 {
        Ok(ScanState { warnings: Seq::empty(), seen: Seq::empty(), applications: Seq::empty() })
    } else {
        match scan_roots(options, snapshot, roots.drop_last()) {
            Err(e) => Err(e),
            Ok(state) => match root_files(options, snapshot.roots@, roots.last().1) {
                Err(e) => Err(e),
                Ok((files, warnings)) => Ok(
                    scan_files(
                        options,
                        snapshot,
                        roots.last(),
                        ScanState { warnings: state.warnings + warnings, ..state },
                        files,
                    ),
                ),
            },
        }
    }
}

/// Two applications that start the same program in the same way.
pub open spec fn same_target(a: ApplicationView, b: ApplicationView) -> bool {
    &&& same_path(a.executable, b.executable)
    &&& a.arguments == b.arguments
    &&& a.terminal == b.terminal
}

/// The application among some that starts the same target.
pub open spec fn equivalent(kept: Seq<ApplicationView>, other: ApplicationView) -> Option<
    ApplicationView,
>
    decreases kept.len(),
{
    if kept.len() == 0 {
        None
    } else if same_target(kept.last(), other) {
        Some(kept.last())
    } else {
        equivalent(kept.drop_last(), other)
    }
}

/// The applications with distinct targets, the first of each, and what is
/// reported about the others.
pub open spec fn distinct_targets(all: Seq<ApplicationView>) -> (
    Seq<ApplicationView>,
    Seq<WarningView>,
)
    decreases all.len(),
{
    if all.len() == 0 {
        (Seq::empty(), Seq::empty())
    } else {
        let (kept, warnings) = distinct_targets(all.drop_last());
        match equivalent(kept, all.last()) {
            Some(first) => (
                kept,
                warnings.push(
                    skip_warning(
                        all.last().desktop_file,
                        DiscoveryWarningCategory::Duplicate,
                        DiscoveryWarningSeverity::Info,
                        "launch target is equivalent to desktop ID "@ + first.desktop_id
                            + " from "@ + lossy_text(first.desktop_file),
                    ),
                ),
            ),
            None => (kept.push(all.last()), warnings),
        }
    }
}

pub open spec fn application_before() -> spec_fn(ApplicationView, ApplicationView) -> bool {
    |a: ApplicationView, b: ApplicationView| text_before(a.desktop_id, b.desktop_id)
}

/// The order of diagnostics: by path, category, severity and reason.
pub open spec fn warning_before() -> spec_fn(WarningView, WarningView) -> bool {
    |a: WarningView, b: WarningView|
        if !same_path(a.path, b.path) {
            path_before(a.path, b.path)
        } else if a.category != b.category {
            category_rank(a.category) < category_rank(b.category)
        } else if a.severity != b.severity {
            severity_rank(a.severity) < severity_rank(b.severity)
        } else if a.reason != b.reason {
            text_before(a.reason, b.reason)
        } else {
            !a.skipped && b.skipped
        }
}

/// The report of a scan.
pub open spec fn discovery(options: OptionsView, snapshot: DiscoverySnapshot) -> Result<
    ReportView,
    DiscoveryErrorView,
> {
    match discovery_roots(options) {
        Err(e) => Err(e),
        Ok(roots) => match scan_roots(options, snapshot, roots) {
            Err(e) => Err(e),
            Ok(state) => {
                let (kept, duplicates) = distinct_targets(state.applications);
                Ok(
                    ReportView {
                        applications: stable_sorted(kept, application_before()),
                        warnings: stable_sorted(state.warnings + duplicates, warning_before()),
                    },
                )
            },
        },
    }
}

struct Scan {
    warnings: Vec<DiscoveryWarning>,
    seen: Vec<(String, UnixPath)>,
    applications: Vec<DiscoveredApplication>,
}

impl Scan {
    spec fn state(self) -> ScanState {
        ScanState {
            warnings: views(self.warnings@),
            seen: views(self.seen@),
            applications: views(self.applications@),
        }
    }
}

fn find_seen<'a>(seen: &'a Vec<(String, UnixPath)>, id: &str) -> (out: Option<&'a UnixPath>)
    ensures
        match out {
            Some(path) => seen_file(views(seen@), id@) == Some(path@),
            None => seen_file(views(seen@), id@) is None,
        },
{
    let ghost all = views(seen@);
    let mut i: usize = seen.len();
    assert(all.take(all.len() as int) =~= all);
    while i > 0
        invariant
            i <= seen@.len(),
            all == views(seen@),
            seen_file(all, id@) == seen_file(all.take(i as int), id@),
        decreases i,
    {
        assert(all.take(i as int).drop_last() =~= all.take(i - 1));
        assert(all.take(i as int).last() == seen@[i - 1]@);
        if same_text(seen[i - 1].0.as_str(), id) {
            return Some(&seen[i - 1].1);
        }
        i -= 1;
    }
    None
}

fn find_file_application(
    options: &DiscoveryOptions,
    resolver: &ExecutableResolver,
    snapshot: &DiscoverySnapshot,
    priority: usize,
    id: String,
    file: &UnixPath,
) -> (out: Result<DiscoveredApplication, DiscoveryWarning>)
    requires
        views(resolver.search_path@) == options@.executable_path,
    ensures
        match out {
            Ok(found) => file_application(options@, *snapshot, priority as int, id@, file@) == Ok::<
                ApplicationView,
                WarningView,
            >(found@),
            Err(w) => file_application(options@, *snapshot, priority as int, id@, file@) == Err::<
                ApplicationView,
                WarningView,
            >(w@),
        },
{
    match read_entry(snapshot, file) {
        Err(w) => Err(w),
        Ok(entry) => build_application(
            options,
            resolver,
            &snapshot.executables,
            id,
            file,
            priority,
            entry,
        ),
    }
}

fn scan_one(
    options: &DiscoveryOptions,
    resolver: &ExecutableResolver,
    snapshot: &DiscoverySnapshot,
    root: &ApplicationRoot,
    scan: &mut Scan,
    file: &UnixPath,
)
    requires
        views(resolver.search_path@) == options@.executable_path,
    ensures
        final(scan).state() == scan_file(options@, *snapshot, root@, old(scan).state(), file@),
{
    broadcast use group_views;

    let id = match desktop_file_id(&root.path, file) {
        None => {
            warn(
                &mut scan.warnings,
                file,
                DiscoveryWarningCategory::DesktopEntry,
                DiscoveryWarningSeverity::Warning,
                "desktop-file path cannot be represented as a valid UTF-8 desktop ID".to_owned(),
            );
            return;
        },
        Some(id) => id,
    };
    match find_seen(&scan.seen, id.as_str()) {
        Some(higher) => {
            let reason = "desktop ID ".to_owned().concat(id.as_str()).concat(
                " is overridden by higher-priority ",
            ).concat(higher.display().as_str());
            warn(
                &mut scan.warnings,
                file,
                DiscoveryWarningCategory::Overridden,
                DiscoveryWarningSeverity::Info,
                reason,
            );
            return;
        },
        None => {},
    }
    let ghost before = views(scan.seen@);
    scan.seen.push((id.clone(), file.clone()));
    assert(views(scan.seen@) =~= before.push((id@, file@)));
    match find_file_application(options, resolver, snapshot, root.priority, id, file) {
        Ok(found) => {
            scan.applications.push(found);
        },
        Err(w) => {
            scan.warnings.push(w);
        },
    }
}

fn scan_root(
    options: &DiscoveryOptions,
    resolver: &ExecutableResolver,
    snapshot: &DiscoverySnapshot,
    root: &ApplicationRoot,
    scan: &mut Scan,
) -> (out: Result<(), DiscoveryError>)
    requires
        views(resolver.search_path@) == options@.executable_path,
    ensures
        ({
            let expected = root_files(options@, snapshot.roots@, root@.1);
            match out {
                Ok(_) => expected is Ok && final(scan).state() == scan_files(
                    options@,
                    *snapshot,
                    root@,
                    ScanState {
                        warnings: old(scan).state().warnings + expected->Ok_0.1,
                        ..old(scan).state()
                    },
                    expected->Ok_0.0,
                ),
                Err(e) => expected == Err::<(Seq<Seq<u8>>, Seq<WarningView>), DiscoveryErrorView>(
                    e@,
                ),
            }
        }),
{
    let files = match desktop_files(options, snapshot, &root.path, &mut scan.warnings) {
        Ok(files) => files,
        Err(e) => {
            return Err(e);
        },
    };
    let ghost all = views(files@);
    let ghost start = scan.state();
    let mut i: usize = 0;
    assert(all.take(0) =~= Seq::empty());
    while i < files.len()
        invariant
            i <= files@.len(),
            all == views(files@),
            views(resolver.search_path@) == options@.executable_path,
            scan.state() == scan_files(options@, *snapshot, root@, start, all.take(i as int)),
        decreases files.len() - i,
    {
        assert(all.take(i + 1).drop_last() =~= all.take(i as int));
        assert(all.take(i + 1).last() == files@[i as int]@);
        scan_one(options, resolver, snapshot, root, scan, &files[i]);
        i += 1;
    }
    assert(all.take(all.len() as int) =~= all);
    Ok(())
}

fn same_strings(a: &Vec<String>, b: &Vec<String>) -> (same: bool)
    ensures
        same == (views(a@) == views(b@)),
{
    let ghost x = views(a@);
    let ghost y = views(b@);
    if a.len() != b.len() {
        assert(x.len() != y.len());
        return false;
    }
    let mut i: usize = 0;
    while i < a.len()
        invariant
            i <= a@.len(),
            a@.len() == b@.len(),
            x == views(a@),
            y == views(b@),
            forall|k: int| 0 <= k < i ==> #[trigger] x[k] == y[k],
        decreases a.len() - i,
    {
        assert(x[i as int] == a@[i as int]@ && y[i as int] == b@[i as int]@);
        if !same_text(a[i].as_str(), b[i].as_str()) {
            assert(x[i as int] != y[i as int]);
            return false;
        }
        i += 1;
    }
    assert(x =~= y);
    true
}

fn is_same_target(a: &DiscoveredApplication, b: &DiscoveredApplication) -> (same: bool)
    ensures
        same == same_target(a@, b@),
{
    a.executable.is_same_path(&b.executable) && same_strings(&a.arguments, &b.arguments)
        && a.terminal == b.terminal
}

fn find_equivalent<'a>(kept: &'a Vec<DiscoveredApplication>, other: &DiscoveredApplication) -> (out:
    Option<&'a DiscoveredApplication>)
    ensures
        match out {
            Some(first) => equivalent(views(kept@), other@) == Some(first@),
            None => equivalent(views(kept@), other@) is None,
        },
{
    let ghost all = views(kept@);
    let mut i: usize = kept.len();
    assert(all.take(all.len() as int) =~= all);
    while i > 0
        invariant
            i <= kept@.len(),
            all == views(kept@),
            equivalent(all, other@) == equivalent(all.take(i as int), other@),
        decreases i,
    {
        assert(all.take(i as int).drop_last() =~= all.take(i - 1));
        assert(all.take(i as int).last() == kept@[i - 1]@);
        if is_same_target(&kept[i - 1], other) {
            return Some(&kept[i - 1]);
        }
        i -= 1;
    }
    None
}

fn deduplicate_launch_targets(
    applications: Vec<DiscoveredApplication>,
    warnings: &mut Vec<DiscoveryWarning>,
) -> (out: Vec<DiscoveredApplication>)
    ensures
        views(out@) == distinct_targets(views(applications@)).0,
        views(final(warnings)@) == views(old(warnings)@) + distinct_targets(
            views(applications@),
        ).1,
{
    broadcast use group_views;

    let ghost all = views(applications@);
    let ghost reported = views(warnings@);
    let mut rest = applications;
    let mut kept: Vec<DiscoveredApplication> = Vec::new();
    let ghost mut done: int = 0;
    assert(applications@.skip(0) =~= applications@);
    assert(all.take(0) =~= Seq::empty());
    assert(reported + distinct_targets(all.take(0)).1 =~= reported);
    while rest.len() > 0
        invariant
            0 <= done <= applications@.len(),
            all == views(applications@),
            rest@ == applications@.skip(done),
            views(kept@) == distinct_targets(all.take(done)).0,
            views(warnings@) == reported + distinct_targets(all.take(done)).1,
        decreases rest.len(),
    {
        let next = rest.remove(0);
        proof {
            assert(next == applications@[done]);
            assert(all.take(done + 1).drop_last() =~= all.take(done));
            assert(all.take(done + 1).last() == next@);
            assert(applications@.skip(done).remove(0) =~= applications@.skip(done + 1));
        }
        match find_equivalent(&kept, &next) {
            Some(first) => {
                let reason = "launch target is equivalent to desktop ID ".to_owned().concat(
                    first.desktop_id.as_str(),
                ).concat(" from ").concat(first.desktop_file.display().as_str());
                warn(
                    warnings,
                    &next.desktop_file,
                    DiscoveryWarningCategory::Duplicate,
                    DiscoveryWarningSeverity::Info,
                    reason,
                );
                assert(views(warnings@) =~= reported + distinct_targets(all.take(done + 1)).1);
            },
            None => {
                kept.push(next);
            },
        }
        proof {
            done = done + 1;
        }
    }
    assert(all.take(all.len() as int) =~= all);
    kept
}

fn is_application_before(a: &DiscoveredApplication, b: &DiscoveredApplication) -> (out: bool)
    ensures
        out == application_before()(a@, b@),
{
    is_before(a.desktop_id.as_str(), b.desktop_id.as_str())
}

fn sort_applications(applications: Vec<DiscoveredApplication>) -> (out: Vec<DiscoveredApplication>)
    ensures
        views(out@) == stable_sorted(views(applications@), application_before()),
{
    let ghost before = |a: DiscoveredApplication, b: DiscoveredApplication|
        application_before()(a@, b@);
    proof {
        crate::order::lemma_stable_sorted_map(
            applications@,
            |a: DiscoveredApplication| a@,
            before,
            application_before(),
        );
    }
    stable_sort(applications, is_application_before, Ghost(before))
}

fn rank_category(category: DiscoveryWarningCategory) -> (rank: u8)
    ensures
        rank == category_rank(category),
{
    match category {
        DiscoveryWarningCategory::Io => 0,
        DiscoveryWarningCategory::InvalidUtf8 => 1,
        DiscoveryWarningCategory::DesktopEntry => 2,
        DiscoveryWarningCategory::Exec => 3,
        DiscoveryWarningCategory::Executable => 4,
        DiscoveryWarningCategory::TryExec => 5,
        DiscoveryWarningCategory::Visibility => 6,
        DiscoveryWarningCategory::Overridden => 7,
        DiscoveryWarningCategory::Duplicate => 8,
    }
}

fn rank_severity(severity: DiscoveryWarningSeverity) -> (rank: u8)
    ensures
        rank == severity_rank(severity),
{
    match severity {
        DiscoveryWarningSeverity::Info => 0,
        DiscoveryWarningSeverity::Warning => 1,
    }
}

fn is_warning_before(a: &DiscoveryWarning, b: &DiscoveryWarning) -> (out: bool)
    ensures
        out == warning_before()(a@, b@),
{
    if !a.path.is_same_path(&b.path) {
        a.path.is_before(&b.path)
    } else if a.category != b.category {
        rank_category(a.category) < rank_category(b.category)
    } else if a.severity != b.severity {
        rank_severity(a.severity) < rank_severity(b.severity)
    } else if !same_text(a.reason.as_str(), b.reason.as_str()) {
        is_before(a.reason.as_str(), b.reason.as_str())
    } else {
        !a.skipped && b.skipped
    }
}

fn sort_warnings(warnings: Vec<DiscoveryWarning>) -> (out: Vec<DiscoveryWarning>)
    ensures
        views(out@) == stable_sorted(views(warnings@), warning_before()),
{
    let ghost before = |a: DiscoveryWarning, b: DiscoveryWarning| warning_before()(a@, b@);
    proof {
        crate::order::lemma_stable_sorted_map(
            warnings@,
            |w: DiscoveryWarning| w@,
            before,
            warning_before(),
        );
    }
    stable_sort(warnings, is_warning_before, Ghost(before))
}

proof fn lemma_scan_error(
    options: OptionsView,
    snapshot: DiscoverySnapshot,
    roots: Seq<(int, Seq<u8>)>,
    k: int,
)
    requires
        0 <= k <= roots.len(),
        scan_roots(options, snapshot, roots.take(k)) is Err,
    ensures
        scan_roots(options, snapshot, roots) == scan_roots(options, snapshot, roots.take(k)),
    decreases roots.len() - k,
{
    if k == roots.len() {
        assert(roots.take(k) =~= roots);
    } else {
        assert(roots.take(k + 1).drop_last() =~= roots.take(k));
        lemma_scan_error(options, snapshot, roots, k + 1);
    }
}

/// Configurable scanner for installed Linux desktop applications.
#[derive(Debug)]
pub struct DesktopApplicationScanner {
    pub options: DiscoveryOptions,
}

impl DesktopApplicationScanner {
    /// Construct a scanner with fully explicit options.
    pub fn from_options(options: DiscoveryOptions) -> (out: Self)
        ensures
            out.options == options,
    {
        DesktopApplicationScanner { options }
    }

    /// Replace the user data root.
    pub fn with_data_home(self, data_home: UnixPath) -> (out: Self)
        ensures
            out.options == (DiscoveryOptions { data_home: Some(data_home), ..self.options }),
    {
        DesktopApplicationScanner {
            options: DiscoveryOptions { data_home: Some(data_home), ..self.options },
        }
    }

    /// Remove the user data root from the scan.
    pub fn without_data_home(self) -> (out: Self)
        ensures
            out.options == (DiscoveryOptions { data_home: None, ..self.options }),
    {
        DesktopApplicationScanner { options: DiscoveryOptions { data_home: None, ..self.options } }
    }

    /// Replace all system data roots, preserving the supplied order.
    pub fn with_data_dirs(self, data_dirs: Vec<UnixPath>) -> (out: Self)
        ensures
            out.options == (DiscoveryOptions { data_dirs, ..self.options }),
    {
        DesktopApplicationScanner { options: DiscoveryOptions { data_dirs, ..self.options } }
    }

    /// Replace the executable search path.
    pub fn with_executable_path(self, executable_path: Vec<UnixPath>) -> (out: Self)
        ensures
            out.options == (DiscoveryOptions { executable_path, ..self.options }),
    {
        DesktopApplicationScanner { options: DiscoveryOptions { executable_path, ..self.options } }
    }

    /// Return the active scanner options.
    pub fn options(&self) -> (out: &DiscoveryOptions)
        ensures
            *out == self.options,
    {
        &self.options
    }

    /// The `applications` directories to look at, in XDG precedence order.
    pub fn discovery_roots(&self) -> (out: Result<Vec<ApplicationRoot>, DiscoveryError>)
        ensures
            match out {
                Ok(roots) => discovery_roots(self.options@) == Ok::<
                    Seq<(int, Seq<u8>)>,
                    DiscoveryErrorView,
                >(views(roots@)),
                Err(e) => discovery_roots(self.options@) == Err::<
                    Seq<(int, Seq<u8>)>,
                    DiscoveryErrorView,
                >(e@),
            },
    {
        find_discovery_roots(&self.options)
    }

    /// Scan configured `applications` directories in XDG precedence order.
    ///
    /// Individual files which are malformed, filtered, overridden, or
    /// unavailable become deterministic warnings. No desktop-entry content is
    /// executed. Fails only for invalid configuration or an unavailable root
    /// which the caller marked as required.
    pub fn discover(&self, snapshot: &DiscoverySnapshot) -> (out: Result<
        DiscoveryReport,
        DiscoveryError,
    >)
        ensures
            match out {
                Ok(report) => discovery(self.options@, *snapshot) == Ok::<
                    ReportView,
                    DiscoveryErrorView,
                >(report@),
                Err(e) => discovery(self.options@, *snapshot) == Err::<
                    ReportView,
                    DiscoveryErrorView,
                >(e@),
            },
    {
        broadcast use group_views;

        let roots = match self.discovery_roots() {
            Ok(roots) => roots,
            Err(e) => {
                return Err(e);
            },
        };
        let resolver = ExecutableResolver::new(copy_paths(&self.options.executable_path));
        let ghost all = views(roots@);
        let mut scan = Scan { warnings: Vec::new(), seen: Vec::new(), applications: Vec::new() };
        let mut i: usize = 0;
        assert(all.take(0) =~= Seq::empty());
        while i < roots.len()
            invariant
                i <= roots@.len(),
                all == views(roots@),
                discovery_roots(self.options@) == Ok::<Seq<(int, Seq<u8>)>, DiscoveryErrorView>(
                    all,
                ),
                views(resolver.search_path@) == self.options@.executable_path,
                scan_roots(self.options@, *snapshot, all.take(i as int)) == Ok::<
                    ScanState,
                    DiscoveryErrorView,
                >(scan.state()),
            decreases roots.len() - i,
        {
            let ghost upto = all.take(i + 1);
            assert(upto.drop_last() =~= all.take(i as int));
            assert(upto.last() == roots@[i as int]@);
            match scan_root(&self.options, &resolver, snapshot, &roots[i], &mut scan) {
                Ok(_) => {},
                Err(e) => {
                    proof {
                        lemma_scan_error(self.options@, *snapshot, all, i + 1);
                    }
                    return Err(e);
                },
            }
            i += 1;
        }
        assert(all.take(all.len() as int) =~= all);
        let mut warnings = scan.warnings;
        let kept = deduplicate_launch_targets(scan.applications, &mut warnings);
        Ok(
            DiscoveryReport {
                applications: sort_applications(kept),
                warnings: sort_warnings(warnings),
            },
        )
    }
}

} // verus!
