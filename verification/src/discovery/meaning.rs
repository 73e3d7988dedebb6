//! Which applications a report lists, and with what contents.
use vstd::prelude::*;

use vstd::utf8::encode_utf8;

use super::desktop_entry::{resolved, DesktopEntryView};
use super::exec_parser::exec_command;
use super::laws::{found_id, is_first_with, precedence, with_root, FoundFile};
use super::resolver::{candidate_paths, first_executable, resolution, ResolutionErrorView};
use super::scanner::{
    application, application_before, application_roots, component_texts, configured_roots,
    desktop_id, discovery, discovery_roots, distinct_targets, equivalent, file_application,
    root_files, same_target, scan_file, scan_files, scan_roots, scanned, scanned_entries,
    scanned_entry, seen_file, visible, warning_before, DirectoryScan, DiscoverySnapshot, EntryKind,
    OptionsView, ScanEntry, ScanState,
};
use super::types::{ApplicationView, WarningView};
use crate::order::{lemma_sorted_holds, stable_sorted};
use crate::path::{child, components, joined, same_path, ComponentView};
use crate::text::{find_char, is_space, join, same_ignoring_case, trim};

verus! {

/// Two characters are one letter, but for its case.
pub open spec fn same_letter_any_case(a: char, b: char) -> bool {
    ||| a == b
    ||| 'A' <= a <= 'Z' && b as u32 == a as u32 + 32
    ||| 'A' <= b <= 'Z' && a as u32 == b as u32 + 32
}

/// Two names are one, but for the case of letters.
pub open spec fn same_name_any_case(a: Seq<char>, b: Seq<char>) -> bool {
    a.len() == b.len() && forall|i: int|
        0 <= i < a.len() ==> same_letter_any_case(#[trigger] a[i], b[i])
}

/// Texts that count as the same but for the case of letters are so letter by
/// letter.
pub proof fn case_is_that_of_letters(a: Seq<char>, b: Seq<char>)
    ensures
        same_ignoring_case(a, b) <==> same_name_any_case(a, b),
{
    assert forall|x: char, y: char|
        #![trigger crate::text::lower(x), crate::text::lower(y)]
        (crate::text::lower(x) == crate::text::lower(y)) == same_letter_any_case(x, y) by {
        lemma_lower(x);
        lemma_lower(y);
    }
    if same_ignoring_case(a, b) {
        assert forall|i: int| 0 <= i < a.len() implies same_letter_any_case(
            #[trigger] a[i],
            b[i],
        ) by {
            assert(crate::text::lower(a[i]) == crate::text::lower(b[i]));
        }
    }
    if same_name_any_case(a, b) {
        assert forall|i: int| 0 <= i < a.len() implies crate::text::lower(#[trigger] a[i])
            == crate::text::lower(b[i]) by {
            assert(same_letter_any_case(a[i], b[i]));
        }
    }
}

proof fn lemma_lower(c: char)
    ensures
        crate::text::lower(c) as u32 == (if 'A' <= c <= 'Z' {
            c as u32 + 32
        } else {
            c as int
        }),
{
}

/// One of some names is one of the active desktops, but for the case of
/// letters.
pub open spec fn names_active(names: Seq<Seq<char>>, current: Seq<Seq<char>>) -> bool {
    exists|i: int, j: int|
        #![trigger names[i], current[j]]
        0 <= i < names.len() && 0 <= j < current.len() && same_name_any_case(names[i], current[j])
}

/// An entry is visible exactly where it names no desktops to show on or one of
/// the active ones, and none of the active ones among those not to show on. So
/// an entry whose `NotShowIn` names other desktops alone is visible.
pub proof fn visibility_follows_the_named_desktops(
    entry: DesktopEntryView,
    current: Seq<Seq<char>>,
)
    ensures
        visible(entry, current) <==> (entry.only_show_in.len() == 0 || names_active(
            entry.only_show_in,
            current,
        )) && !names_active(entry.not_show_in, current),
{
    lemma_names_active(entry.only_show_in, current);
    lemma_names_active(entry.not_show_in, current);
}

proof fn lemma_names_active(names: Seq<Seq<char>>, current: Seq<Seq<char>>)
    ensures
        super::scanner::any_matches(names, current) <==> names_active(names, current),
{
    if super::scanner::any_matches(names, current) {
        let i = choose|i: int|
            0 <= i < names.len() && super::scanner::matches_desktop(#[trigger] names[i], current);
        let j = choose|j: int|
            0 <= j < current.len() && same_ignoring_case(names[i], #[trigger] current[j]);
        case_is_that_of_letters(names[i], current[j]);
    }
    if names_active(names, current) {
        let (i, j) = choose|i: int, j: int|
            #![trigger names[i], current[j]]
            0 <= i < names.len() && 0 <= j < current.len() && same_name_any_case(
                names[i],
                current[j],
            );
        case_is_that_of_letters(names[i], current[j]);
        assert(super::scanner::matches_desktop(names[i], current));
    }
}

/// A text that shows something.
pub open spec fn shows(text: Option<Seq<char>>) -> bool {
    text matches Some(t) && exists|i: int| 0 <= i < t.len() && !is_space(#[trigger] t[i])
}

proof fn lemma_shows(text: Option<Seq<char>>)
    ensures
        super::scanner::nonblank(text) == (if shows(text) {
            text
        } else {
            None
        }),
{
    if text is Some {
        lemma_trimmed(text->0);
    }
}

proof fn lemma_trimmed(s: Seq<char>)
    ensures
        trim(s).len() > 0 <==> exists|i: int| 0 <= i < s.len() && !is_space(#[trigger] s[i]),
{
    lemma_trimmed_start(s);
    let t = crate::text::trim_start(s);
    lemma_trimmed_end(t);
    if t.len() > 0 {
        assert(!is_space(t[0]));
    }
}

proof fn lemma_trimmed_start(s: Seq<char>)
    ensures
        crate::text::trim_start(s).len() > 0 <==> exists|i: int|
            0 <= i < s.len() && !is_space(#[trigger] s[i]),
        crate::text::trim_start(s).len() > 0 ==> !is_space(crate::text::trim_start(s)[0]),
    decreases s.len(),
{
    if s.len() > 0 && is_space(s[0]) {
        let rest = s.drop_first();
        lemma_trimmed_start(rest);
        if exists|i: int| 0 <= i < s.len() && !is_space(#[trigger] s[i]) {
            let i = choose|i: int| 0 <= i < s.len() && !is_space(#[trigger] s[i]);
            assert(rest[i - 1] == s[i]);
        }
        if exists|i: int| 0 <= i < rest.len() && !is_space(#[trigger] rest[i]) {
            let i = choose|i: int| 0 <= i < rest.len() && !is_space(#[trigger] rest[i]);
            assert(s[i + 1] == rest[i]);
        }
    }
}

proof fn lemma_trimmed_end(s: Seq<char>)
    ensures
        crate::text::trim_end(s).len() > 0 <==> exists|i: int|
            0 <= i < s.len() && !is_space(#[trigger] s[i]),
    decreases s.len(),
{
    if s.len() > 0 && is_space(s.last()) {
        let rest = s.drop_last();
        lemma_trimmed_end(rest);
        if exists|i: int| 0 <= i < s.len() && !is_space(#[trigger] s[i]) {
            let i = choose|i: int| 0 <= i < s.len() && !is_space(#[trigger] s[i]);
            assert(rest[i] == s[i]);
        }
        if exists|i: int| 0 <= i < rest.len() && !is_space(#[trigger] rest[i]) {
            let i = choose|i: int| 0 <= i < rest.len() && !is_space(#[trigger] rest[i]);
            assert(s[i] == rest[i]);
        }
    } else if s.len() > 0 {
        assert(!is_space(s[s.len() - 1]));
    }
}

/// An entry describes an application that is to be listed.
pub open spec fn describes_application(
    options: OptionsView,
    executables: Seq<Seq<u8>>,
    file: Seq<u8>,
    entry: DesktopEntryView,
) -> bool {
    let name = resolved(entry.names, options.locale);
    &&& !entry.hidden
    &&& entry.entry_type == Some("Application"@)
    &&& entry.only_show_in.len() == 0 || entry.not_show_in.len() == 0
    &&& entry.no_display ==> options.include_no_display
    &&& options.ignore_desktop_filter || {
        &&& entry.only_show_in.len() == 0 || names_active(
            entry.only_show_in,
            options.current_desktops,
        )
        &&& !names_active(entry.not_show_in, options.current_desktops)
    }
    &&& shows(name)
    &&& entry.command is Some
    &&& entry.try_exec matches Some(program) ==> resolution(
        options.executable_path,
        executables,
        program,
    ) is Ok
    &&& exec_command(entry.command->0, name->0, file) matches Ok(parsed)
    &&& resolution(options.executable_path, executables, parsed.executable) is Ok
}

/// An entry is listed exactly where it describes an application that can be
/// shown and started, and it is listed with what the entry says: its name for
/// the locale, the program that its command resolves to with the arguments of
/// the command, and its other values as they stand.
pub proof fn applications_are_as_their_entry_says(
    options: OptionsView,
    executables: Seq<Seq<u8>>,
    id: Seq<char>,
    file: Seq<u8>,
    priority: int,
    entry: DesktopEntryView,
)
    ensures
        application(options, executables, id, file, priority, entry) is Ok
            <==> describes_application(options, executables, file, entry),
        match application(options, executables, id, file, priority, entry) {
            Ok(a) => {
                let parsed = exec_command(entry.command->0, a.name, file)->Ok_0;
                &&& a.desktop_id == id
                &&& Some(a.name) == resolved(entry.names, options.locale)
                &&& shows(resolved(entry.generic_names, options.locale)) ==> a.generic_name
                    == resolved(entry.generic_names, options.locale)
                &&& !shows(resolved(entry.generic_names, options.locale)) ==> a.generic_name is None
                &&& resolution(options.executable_path, executables, parsed.executable) == Ok::<
                    Seq<u8>,
                    ResolutionErrorView,
                >(a.executable)
                &&& a.arguments == parsed.arguments
                &&& a.icon == entry.icon
                &&& a.desktop_file == file
                &&& a.terminal == entry.terminal
                &&& a.categories == entry.categories
                &&& a.startup_wm_class == entry.startup_wm_class
                &&& a.source_priority == priority
                &&& a.no_display == entry.no_display
            },
            Err(w) => w.path == file && w.skipped,
        },
{
    visibility_follows_the_named_desktops(entry, options.current_desktops);
    lemma_shows(resolved(entry.names, options.locale));
    lemma_shows(resolved(entry.generic_names, options.locale));
}

/// A program with a slash in its name stands at that path alone; any other is
/// the first on the search path that is an executable file, and is missing
/// exactly where none of them is.
pub proof fn programs_resolve_by_path(
    search_path: Seq<Seq<u8>>,
    executables: Seq<Seq<u8>>,
    program: Seq<char>,
)
    requires
        program.len() > 0,
        !program.contains('\0'),
    ensures
        program.contains('/') ==> (resolution(search_path, executables, program) == Ok::<
            Seq<u8>,
            ResolutionErrorView,
        >(encode_utf8(program)) <==> executables.contains(encode_utf8(program))),
        program.contains('/') && !executables.contains(encode_utf8(program)) ==> resolution(
            search_path,
            executables,
            program,
        ) is Err,
        !program.contains('/') ==> match resolution(search_path, executables, program) {
            Ok(path) => exists|k: int|
                0 <= k < search_path.len() && path == child(#[trigger] search_path[k], program)
                    && executables.contains(path) && forall|m: int|
                    0 <= m < k ==> !executables.contains(child(#[trigger] search_path[m], program)),
            Err(_) => forall|m: int|
                0 <= m < search_path.len() ==> !executables.contains(
                    child(#[trigger] search_path[m], program),
                ),
        },
{
    lemma_contains_find(program, '\0');
    lemma_contains_find(program, '/');
    let candidates = candidate_paths(search_path, program);
    lemma_first_executable(candidates, executables);
    if program.contains('/') {
        assert(candidates =~= seq![encode_utf8(program)]);
        assert(candidates[0] == encode_utf8(program));
    } else {
        assert forall|m: int| 0 <= m < search_path.len() implies candidates[m] == child(
            #[trigger] search_path[m],
            program,
        ) by {}
        match first_executable(candidates, executables) {
            Some(path) => {
                let k = choose|k: int|
                    0 <= k < candidates.len() && #[trigger] candidates[k] == path
                        && executables.contains(path) && forall|m: int|
                        0 <= m < k ==> !executables.contains(#[trigger] candidates[m]);
                assert(path == child(search_path[k], program));
                assert forall|m: int| 0 <= m < k implies !executables.contains(
                    child(#[trigger] search_path[m], program),
                ) by {
                    assert(!executables.contains(candidates[m]));
                }
            },
            None => {
                assert forall|m: int| 0 <= m < search_path.len() implies !executables.contains(
                    child(#[trigger] search_path[m], program),
                ) by {
                    assert(!executables.contains(candidates[m]));
                }
            },
        }
    }
}

proof fn lemma_contains_find(s: Seq<char>, c: char)
    ensures
        find_char(s, c) < s.len() <==> s.contains(c),
        0 <= find_char(s, c) <= s.len(),
        find_char(s, c) < s.len() ==> s[find_char(s, c)] == c,
    decreases s.len(),
{
    if s.len() > 0 && s[0] != c {
        let rest = s.drop_first();
        lemma_contains_find(rest, c);
        if s.contains(c) {
            let i = choose|i: int| 0 <= i < s.len() && s[i] == c;
            assert(rest[i - 1] == c);
        }
        if rest.contains(c) {
            let i = choose|i: int| 0 <= i < rest.len() && rest[i] == c;
            assert(s[i + 1] == c);
        }
    } else if s.len() > 0 {
        assert(s[0] == c);
    }
}

proof fn lemma_first_executable(candidates: Seq<Seq<u8>>, executables: Seq<Seq<u8>>)
    ensures
        match first_executable(candidates, executables) {
            Some(path) => exists|k: int|
                0 <= k < candidates.len() && #[trigger] candidates[k] == path
                    && executables.contains(path) && forall|m: int|
                    0 <= m < k ==> !executables.contains(#[trigger] candidates[m]),
            None => forall|m: int|
                0 <= m < candidates.len() ==> !executables.contains(#[trigger] candidates[m]),
        },
    decreases candidates.len(),
{
    if candidates.len() > 0 {
        if executables.contains(candidates[0]) {
            assert(candidates[0] == first_executable(candidates, executables)->0);
        } else {
            let rest = candidates.drop_first();
            lemma_first_executable(rest, executables);
            match first_executable(rest, executables) {
                Some(path) => {
                    let k = choose|k: int|
                        0 <= k < rest.len() && #[trigger] rest[k] == path && executables.contains(
                            path,
                        ) && forall|m: int|
                            0 <= m < k ==> !executables.contains(#[trigger] rest[m]);
                    assert(candidates[k + 1] == path);
                    assert forall|m: int| 0 <= m < k + 1 implies !executables.contains(
                        #[trigger] candidates[m],
                    ) by {
                        if m > 0 {
                            assert(rest[m - 1] == candidates[m]);
                        }
                    }
                },
                None => {
                    assert forall|m: int| 0 <= m < candidates.len() implies !executables.contains(
                        #[trigger] candidates[m],
                    ) by {
                        if m > 0 {
                            assert(rest[m - 1] == candidates[m]);
                        }
                    }
                },
            }
        }
    }
}

/// The data roots: the user's, where there is one, before the system's.
pub open spec fn data_roots(options: OptionsView) -> Seq<Seq<u8>> {
    match options.data_home {
        Some(home) => seq![home] + options.data_dirs,
        None => options.data_dirs,
    }
}

/// Each root is the `applications` directory of the data root that it counts
/// for.
pub open spec fn roots_are_below(all: Seq<Seq<u8>>, roots: Seq<(int, Seq<u8>)>) -> bool {
    forall|i: int|
        0 <= i < roots.len() ==> 0 <= (#[trigger] roots[i]).0 < all.len() && roots[i].1 == child(
            all[roots[i].0],
            "applications"@,
        )
}

/// The roots ascend, and are different directories.
pub open spec fn roots_ascend(roots: Seq<(int, Seq<u8>)>) -> bool {
    forall|i: int, j: int|
        0 <= i < j < roots.len() ==> (#[trigger] roots[i]).0 < (#[trigger] roots[j]).0
            && !same_path(roots[i].1, roots[j].1)
}

/// A directory is among the roots, for a mention no later than this.
pub open spec fn root_stands(roots: Seq<(int, Seq<u8>)>, k: int, path: Seq<u8>) -> bool {
    exists|i: int|
        0 <= i < roots.len() && (#[trigger] roots[i]).0 <= k && same_path(roots[i].1, path)
}

/// The roots of a scan are the `applications` directories of the user's data
/// root and of the system's, in this order; each directory is scanned once, for
/// its first mention, and none that was configured is left out.
pub proof fn roots_are_scanned_in_order(options: OptionsView)
    requires
        discovery_roots(options) is Ok,
    ensures
        roots_are_below(data_roots(options), discovery_roots(options)->Ok_0),
        roots_ascend(discovery_roots(options)->Ok_0),
        forall|k: int|
            0 <= k < data_roots(options).len() ==> root_stands(
                discovery_roots(options)->Ok_0,
                k,
                child(#[trigger] data_roots(options)[k], "applications"@),
            ),
{
    lemma_application_roots(configured_roots(options));
    assert(configured_roots(options) == data_roots(options));
}

proof fn lemma_application_roots(all: Seq<Seq<u8>>)
    requires
        application_roots(all) is Ok,
    ensures
        roots_are_below(all, application_roots(all)->Ok_0),
        roots_ascend(application_roots(all)->Ok_0),
        forall|k: int|
            0 <= k < all.len() ==> root_stands(
                application_roots(all)->Ok_0,
                k,
                child(#[trigger] all[k], "applications"@),
            ),
    decreases all.len(),
{
    if all.len() > 0 {
        let front = all.drop_last();
        let last = all.len() - 1;
        lemma_application_roots(front);
        let before = application_roots(front)->Ok_0;
        let roots = application_roots(all)->Ok_0;
        let path = child(all[last], "applications"@);
        let held = super::scanner::holds_root(before, path);
        assert(roots == if held {
            before
        } else {
            before.push((last, path))
        });
        assert forall|i: int| 0 <= i < roots.len() implies 0 <= (#[trigger] roots[i]).0 < all.len()
            && roots[i].1 == child(all[roots[i].0], "applications"@) by {
            if i < before.len() {
                assert(roots[i] == before[i]);
                assert(front[before[i].0] == all[before[i].0]);
            }
        }
        assert forall|i: int, j: int| 0 <= i < j < roots.len() implies (#[trigger] roots[i]).0 < (
        #[trigger] roots[j]).0 && !same_path(roots[i].1, roots[j].1) by {
            assert(roots[i] == before[i]);
            if j < before.len() {
                assert(roots[j] == before[j]);
            } else {
                assert(!same_path(before[i].1, path));
            }
        }
        assert forall|k: int| 0 <= k < all.len() implies root_stands(
            roots,
            k,
            child(#[trigger] all[k], "applications"@),
        ) by {
            if k < last {
                let named = child(front[k], "applications"@);
                assert(front[k] == all[k]);
                assert(root_stands(before, k, named));
                let i = choose|i: int|
                    0 <= i < before.len() && (#[trigger] before[i]).0 <= k && same_path(
                        before[i].1,
                        named,
                    );
                assert(roots[i] == before[i]);
            } else if held {
                let i = choose|i: int|
                    0 <= i < before.len() && same_path((#[trigger] before[i]).1, path);
                assert(roots[i] == before[i]);
                assert(before[i].0 < front.len());
            } else {
                assert(roots[roots.len() - 1] == (last, path));
            }
        }
    }
}

/// An entry of a directory gives a desktop file: it is the file, or a link to
/// it, with a name that ends in `.desktop` and is more than that; or it is a
/// directory in which a scan finds the file.
pub open spec fn entry_gives(directory: Seq<u8>, entry: ScanEntry, path: Seq<u8>) -> bool {
    match entry {
        ScanEntry::Failed(_) => false,
        ScanEntry::Entry { name, kind } => match kind {
            EntryKind::Directory(inner) => scanned(joined(directory, name@), inner).0.contains(
                path,
            ),
            EntryKind::File | EntryKind::SymlinkToFile => {
                &&& path == joined(directory, name@)
                &&& exists|stem: Seq<u8>|
                    stem.len() > 0 && name@ == #[trigger] (stem + encode_utf8(".desktop"@))
            },
            EntryKind::Other | EntryKind::Unknown(_) => false,
        },
    }
}

/// A scan finds exactly the desktop files that stand in a directory or below
/// it, links to files among them.
pub proof fn scans_find_every_desktop_file(
    directory: Seq<u8>,
    scan: DirectoryScan,
    path: Seq<u8>,
)
    ensures
        scanned(directory, scan).0.contains(path) <==> match scan {
            DirectoryScan::Failed(_) => false,
            DirectoryScan::Entries(entries) => exists|i: int|
                0 <= i < entries@.len() && entry_gives(directory, #[trigger] entries@[i], path),
        },
{
    match scan {
        DirectoryScan::Failed(_) => {},
        DirectoryScan::Entries(entries) => {
            lemma_scanned_entries(directory, entries, entries@.len() as int, path);
        },
    }
}

proof fn lemma_scanned_entries(
    directory: Seq<u8>,
    entries: Vec<ScanEntry>,
    count: int,
    path: Seq<u8>,
)
    requires
        0 <= count <= entries@.len(),
    ensures
        scanned_entries(directory, entries, count).0.contains(path) <==> exists|i: int|
            0 <= i < count && entry_gives(directory, #[trigger] entries@[i], path),
    decreases count,
{
    let found = scanned_entries(directory, entries, count).0;
    if count > 0 {
        let front = scanned_entries(directory, entries, count - 1).0;
        let entry = entries@[count - 1];
        let last = scanned_entry(directory, entry).0;
        lemma_scanned_entries(directory, entries, count - 1, path);
        lemma_scanned_entry(directory, entry, path);
        assert(found == front + last);
        if found.contains(path) {
            let k = choose|k: int| 0 <= k < found.len() && found[k] == path;
            if k < front.len() {
                assert(front[k] == path);
            } else {
                assert(last[k - front.len()] == path);
                assert(entry_gives(directory, entries@[count - 1], path));
            }
        }
        if front.contains(path) {
            let k = choose|k: int| 0 <= k < front.len() && front[k] == path;
            assert(found[k] == path);
        }
        if last.contains(path) {
            let k = choose|k: int| 0 <= k < last.len() && last[k] == path;
            assert(found[front.len() + k] == path);
        }
    }
}

proof fn lemma_scanned_entry(directory: Seq<u8>, entry: ScanEntry, path: Seq<u8>)
    ensures
        scanned_entry(directory, entry).0.contains(path) <==> entry_gives(directory, entry, path),
{
    match entry {
        ScanEntry::Failed(_) => {},
        ScanEntry::Entry { name, kind } => match kind {
            EntryKind::Directory(inner) => {
                assert(scanned_entry(directory, entry) == scanned(joined(directory, name@), inner));
            },
            EntryKind::File | EntryKind::SymlinkToFile => {
                lemma_desktop_name(name@);
                let found = scanned_entry(directory, entry).0;
                if found.len() > 0 {
                    assert(found[0] == joined(directory, name@));
                }
            },
            _ => {},
        },
    }
}

proof fn lemma_desktop_name(name: Seq<u8>)
    ensures
        super::scanner::is_desktop_name(name) <==> exists|stem: Seq<u8>|
            stem.len() > 0 && name == #[trigger] (stem + encode_utf8(".desktop"@)),
{
    let ending = encode_utf8(".desktop"@);
    reveal_strlit(".desktop");
    vstd::utf8::is_ascii_chars_encode_utf8(".desktop"@);
    assert(ending.len() == 8);
    if super::scanner::is_desktop_name(name) {
        let stem = name.take(name.len() - 8);
        assert(name =~= stem + ending);
        assert(stem.len() > 0);
    }
    if exists|stem: Seq<u8>| stem.len() > 0 && name == #[trigger] (stem + ending) {
        let stem = choose|stem: Seq<u8>| stem.len() > 0 && name == #[trigger] (stem + ending);
        assert(name.skip(name.len() - 8) =~= ending);
    }
}

/// The components of a path below a root are the root's and these names.
pub open spec fn stands_below(root: Seq<u8>, path: Seq<u8>, names: Seq<Seq<char>>) -> bool {
    &&& components(path).len() == components(root).len() + names.len()
    &&& forall|i: int|
        0 <= i < components(root).len() ==> #[trigger] components(path)[i] == components(root)[i]
    &&& forall|i: int|
        0 <= i < names.len() ==> components(path)[components(root).len() + i]
            == ComponentView::Normal(encode_utf8(#[trigger] names[i]))
}

/// The ID of a desktop file is made of the names that lead to it from its root,
/// with hyphens between them.
pub proof fn ids_are_the_names_below_the_root(
    root: Seq<u8>,
    path: Seq<u8>,
    names: Seq<Seq<char>>,
)
    requires
        names.len() > 0,
        stands_below(root, path, names),
    ensures
        desktop_id(root, path) == Some(join(names, "-"@)),
{
    let base = components(root);
    let all = components(path);
    assert(all.take(base.len() as int) =~= base);
    let parts = all.skip(base.len() as int);
    assert forall|i: int| 0 <= i < names.len() implies parts[i] == ComponentView::Normal(
        encode_utf8(#[trigger] names[i]),
    ) by {
        assert(parts[i] == all[base.len() + i]);
    }
    lemma_component_texts(parts, names);
}

proof fn lemma_component_texts(parts: Seq<ComponentView>, names: Seq<Seq<char>>)
    requires
        parts.len() == names.len(),
        forall|i: int|
            0 <= i < names.len() ==> parts[i] == ComponentView::Normal(
                encode_utf8(#[trigger] names[i]),
            ),
    ensures
        component_texts(parts) == Some(names),
    decreases parts.len(),
{
    if parts.len() > 0 {
        let front = names.drop_last();
        assert forall|i: int| 0 <= i < front.len() implies parts.drop_last()[i]
            == ComponentView::Normal(encode_utf8(#[trigger] front[i])) by {
            assert(front[i] == names[i]);
        }
        lemma_component_texts(parts.drop_last(), front);
        let last = names[names.len() - 1];
        vstd::utf8::encode_utf8_valid_utf8(last);
        vstd::utf8::encode_utf8_decode_utf8(last);
        assert(front.push(last) =~= names);
    } else {
        assert(names =~= Seq::empty());
    }
}

/// Two applications start one program with the same arguments, both in a
/// terminal or both not.
pub open spec fn starts_alike(a: ApplicationView, b: ApplicationView) -> bool {
    &&& components(a.executable) == components(b.executable)
    &&& a.arguments == b.arguments
    &&& a.terminal == b.terminal
}

proof fn lemma_equivalent_starts_alike(kept: Seq<ApplicationView>, other: ApplicationView)
    ensures
        match equivalent(kept, other) {
            Some(first) => kept.contains(first) && starts_alike(first, other),
            None => forall|i: int|
                0 <= i < kept.len() ==> !starts_alike(#[trigger] kept[i], other),
        },
    decreases kept.len(),
{
    if kept.len() > 0 {
        let front = kept.drop_last();
        lemma_equivalent_starts_alike(front, other);
        if same_target(kept.last(), other) {
            assert(kept[kept.len() - 1] == kept.last());
        } else {
            match equivalent(front, other) {
                Some(first) => {
                    let k = choose|k: int| 0 <= k < front.len() && front[k] == first;
                    assert(kept[k] == first);
                },
                None => {
                    assert forall|i: int| 0 <= i < kept.len() implies !starts_alike(
                        #[trigger] kept[i],
                        other,
                    ) by {
                        if i < front.len() {
                            assert(front[i] == kept[i]);
                        }
                    }
                },
            }
        }
    }
}

/// Of applications that start alike the first is kept, and nothing else is
/// dropped: each one is kept unless one before it starts alike.
pub proof fn only_repeated_targets_are_dropped(all: Seq<ApplicationView>, k: int)
    requires
        0 <= k < all.len(),
        forall|m: int| 0 <= m < k ==> !starts_alike(#[trigger] all[m], all[k]),
    ensures
        distinct_targets(all).0.contains(all[k]),
    decreases all.len(),
{
    let front = all.drop_last();
    let (kept, warnings) = distinct_targets(front);
    lemma_equivalent_starts_alike(kept, all.last());
    if k < front.len() {
        assert forall|m: int| 0 <= m < k implies !starts_alike(#[trigger] front[m], front[k]) by {
            assert(front[m] == all[m]);
        }
        only_repeated_targets_are_dropped(front, k);
        assert(front[k] == all[k]);
        let i = choose|i: int| 0 <= i < kept.len() && kept[i] == all[k];
        assert(distinct_targets(all).0[i] == all[k]);
    } else {
        lemma_kept_stem(front);
        match equivalent(kept, all.last()) {
            Some(first) => {
                assert(front.contains(first));
                let m = choose|m: int| 0 <= m < front.len() && front[m] == first;
                assert(all[m] == first);
                assert(!starts_alike(all[m], all[k]));
            },
            None => {
                assert(distinct_targets(all).0[kept.len() as int] == all[k]);
            },
        }
    }
}

proof fn lemma_kept_stem(all: Seq<ApplicationView>)
    ensures
        forall|a: ApplicationView| #[trigger]
            distinct_targets(all).0.contains(a) ==> all.contains(a),
    decreases all.len(),
{
    if all.len() > 0 {
        let front = all.drop_last();
        lemma_kept_stem(front);
        let kept = distinct_targets(front).0;
        let after = distinct_targets(all).0;
        assert forall|a: ApplicationView| #[trigger] after.contains(a) implies all.contains(a) by {
            let k = choose|k: int| 0 <= k < after.len() && after[k] == a;
            if k < kept.len() {
                assert(kept[k] == a);
                assert(kept.contains(a));
                let m = choose|m: int| 0 <= m < front.len() && front[m] == a;
                assert(all[m] == a);
            } else {
                assert(all[all.len() - 1] == a);
            }
        }
    }
}

/// The file describes an application that is among those found.
spec fn yields(
    options: OptionsView,
    snapshot: DiscoverySnapshot,
    found: FoundFile,
    state: ScanState,
    id: Seq<char>,
) -> bool {
    match file_application(options, snapshot, found.0.0, id, found.1) {
        Ok(a) => state.applications.contains(a),
        Err(_) => false,
    }
}

/// What became of a file: its application, or a warning about it.
spec fn accounted(
    options: OptionsView,
    snapshot: DiscoverySnapshot,
    order: Seq<FoundFile>,
    state: ScanState,
    k: int,
) -> bool {
    let file = order[k].1;
    ||| exists|id: Seq<char>| #[trigger]
        is_first_with(order, k, id) && yields(options, snapshot, order[k], state, id)
    ||| exists|i: int| 0 <= i < state.warnings.len() && (#[trigger] state.warnings[i]).path == file
}

spec fn files_accounted(
    options: OptionsView,
    snapshot: DiscoverySnapshot,
    order: Seq<FoundFile>,
    state: ScanState,
) -> bool {
    &&& forall|k: int, id: Seq<char>| #[trigger]
        is_first_with(order, k, id) ==> (file_application(
            options,
            snapshot,
            order[k].0.0,
            id,
            order[k].1,
        ) matches Ok(a) ==> state.applications.contains(a))
    &&& forall|k: int|
        0 <= k < order.len() ==> #[trigger] accounted(options, snapshot, order, state, k)
    &&& forall|id: Seq<char>| #[trigger]
        seen_file(state.seen, id) is Some <==> exists|k: int|
            0 <= k < order.len() && found_id(#[trigger] order[k]) == Some(id)
}

proof fn lemma_accounted_later(
    options: OptionsView,
    snapshot: DiscoverySnapshot,
    order: Seq<FoundFile>,
    more: FoundFile,
    state: ScanState,
    after: ScanState,
    k: int,
)
    requires
        0 <= k < order.len(),
        accounted(options, snapshot, order, state, k),
        forall|a: ApplicationView| #[trigger]
            state.applications.contains(a) ==> after.applications.contains(a),
        forall|i: int|
            0 <= i < state.warnings.len() ==> i < after.warnings.len() && #[trigger] after.warnings[i]
                == state.warnings[i],
    ensures
        accounted(options, snapshot, order.push(more), after, k),
{
    let longer = order.push(more);
    assert(longer[k] == order[k]);
    if exists|i: int|
        0 <= i < state.warnings.len() && (#[trigger] state.warnings[i]).path == order[k].1 {
        let i = choose|i: int|
            0 <= i < state.warnings.len() && (#[trigger] state.warnings[i]).path == order[k].1;
        assert(after.warnings[i].path == longer[k].1);
    } else {
        let id = choose|id: Seq<char>| #[trigger]
            is_first_with(order, k, id) && yields(options, snapshot, order[k], state, id);
        assert(is_first_with(longer, k, id)) by {
            assert forall|m: int| 0 <= m < k implies found_id(#[trigger] longer[m]) != Some(
                id,
            ) by {
                assert(longer[m] == order[m]);
            }
        }
    }
}

proof fn lemma_file_accounted(
    options: OptionsView,
    snapshot: DiscoverySnapshot,
    order: Seq<FoundFile>,
    root: (int, Seq<u8>),
    state: ScanState,
    file: Seq<u8>,
)
    requires
        files_accounted(options, snapshot, order, state),
    ensures
        files_accounted(
            options,
            snapshot,
            order.push((root, file)),
            scan_file(options, snapshot, root, state, file),
        ),
{
    let longer = order.push((root, file));
    let after = scan_file(options, snapshot, root, state, file);
    let last = order.len() as int;
    assert(longer[last] == (root, file));
    let new_id = desktop_id(root.1, file);
    assert forall|a: ApplicationView| #[trigger] state.applications.contains(
        a,
    ) implies after.applications.contains(a) by {
        let i = choose|i: int| 0 <= i < state.applications.len() && state.applications[i] == a;
        assert(after.applications[i] == a);
    }
    assert forall|i: int| 0 <= i < state.warnings.len() implies i < after.warnings.len()
        && #[trigger] after.warnings[i] == state.warnings[i] by {}
    assert forall|id: Seq<char>| #[trigger] seen_file(after.seen, id) is Some <==> exists|k: int|
        0 <= k < longer.len() && found_id(#[trigger] longer[k]) == Some(id) by {
        if seen_file(state.seen, id) is Some {
            let k = choose|k: int| 0 <= k < order.len() && found_id(#[trigger] order[k]) == Some(id);
            assert(found_id(longer[k]) == Some(id));
        }
        if new_id == Some(id) {
            assert(found_id(longer[last]) == Some(id));
        }
        if exists|k: int| 0 <= k < longer.len() && found_id(#[trigger] longer[k]) == Some(id) {
            let k = choose|k: int| 0 <= k < longer.len() && found_id(#[trigger] longer[k]) == Some(id);
            if k < last {
                assert(found_id(order[k]) == Some(id));
            }
        }
        if after.seen != state.seen {
            assert(after.seen.drop_last() =~= state.seen);
        }
    }
    assert forall|k: int, id: Seq<char>| #[trigger] is_first_with(longer, k, id) implies (
    file_application(options, snapshot, longer[k].0.0, id, longer[k].1) matches Ok(a)
        ==> after.applications.contains(a)) by {
        if k < last {
            assert(is_first_with(order, k, id)) by {
                assert(longer[k] == order[k]);
                assert forall|m: int| 0 <= m < k implies found_id(#[trigger] order[m]) != Some(
                    id,
                ) by {
                    assert(longer[m] == order[m]);
                }
            }
        } else {
            if seen_file(state.seen, id) is Some {
                let m = choose|m: int|
                    0 <= m < order.len() && found_id(#[trigger] order[m]) == Some(id);
                assert(found_id(longer[m]) == Some(id));
            }
            match file_application(options, snapshot, root.0, id, file) {
                Ok(a) => {
                    assert(after.applications[state.applications.len() as int] == a);
                },
                Err(_) => {},
            }
        }
    }
    assert forall|k: int| 0 <= k < longer.len() implies #[trigger] accounted(
        options,
        snapshot,
        longer,
        after,
        k,
    ) by {
        if k < last {
            assert(accounted(options, snapshot, order, state, k));
            lemma_accounted_later(options, snapshot, order, (root, file), state, after, k);
        } else {
            lemma_last_accounted(options, snapshot, order, root, state, file);
        }
    }
}

proof fn lemma_last_accounted(
    options: OptionsView,
    snapshot: DiscoverySnapshot,
    order: Seq<FoundFile>,
    root: (int, Seq<u8>),
    state: ScanState,
    file: Seq<u8>,
)
    requires
        files_accounted(options, snapshot, order, state),
    ensures
        accounted(
            options,
            snapshot,
            order.push((root, file)),
            scan_file(options, snapshot, root, state, file),
            order.len() as int,
        ),
{
    let longer = order.push((root, file));
    let after = scan_file(options, snapshot, root, state, file);
    let last = order.len() as int;
    assert(longer[last] == (root, file));
    let count = state.warnings.len() as int;
    match desktop_id(root.1, file) {
        None => {
            assert(after.warnings[count].path == file);
        },
        Some(id) => {
            if seen_file(state.seen, id) is Some {
                assert(after.warnings[count].path == file);
            } else {
                assert(is_first_with(longer, last, id)) by {
                    assert forall|m: int| 0 <= m < last implies found_id(#[trigger] longer[m])
                        != Some(id) by {
                        assert(longer[m] == order[m]);
                        if found_id(order[m]) == Some(id) {
                            assert(seen_file(state.seen, id) is Some);
                        }
                    }
                }
                match file_application(options, snapshot, root.0, id, file) {
                    Ok(a) => {
                        assert(after.applications[state.applications.len() as int] == a);
                    },
                    Err(w) => {
                        lemma_warning_path(options, snapshot, root.0, id, file);
                        assert(after.warnings[count].path == file);
                    },
                }
            }
        },
    }
}

proof fn lemma_warning_path(
    options: OptionsView,
    snapshot: DiscoverySnapshot,
    priority: int,
    id: Seq<char>,
    file: Seq<u8>,
)
    ensures
        file_application(options, snapshot, priority, id, file) matches Err(w) ==> w.path == file,
{
    match super::scanner::file_entry(snapshot.files@, file) {
        Err(_) => {},
        Ok(entry) => {
            applications_are_as_their_entry_says(
                options,
                crate::text::views(snapshot.executables@),
                id,
                file,
                priority,
                entry,
            );
        },
    }
}

proof fn lemma_files_accounted(
    options: OptionsView,
    snapshot: DiscoverySnapshot,
    order: Seq<FoundFile>,
    root: (int, Seq<u8>),
    state: ScanState,
    files: Seq<Seq<u8>>,
)
    requires
        files_accounted(options, snapshot, order, state),
    ensures
        files_accounted(
            options,
            snapshot,
            order + with_root(root, files),
            scan_files(options, snapshot, root, state, files),
        ),
    decreases files.len(),
{
    if files.len() == 0 {
        assert(order + with_root(root, files) =~= order);
    } else {
        let front = files.drop_last();
        lemma_files_accounted(options, snapshot, order, root, state, front);
        lemma_file_accounted(
            options,
            snapshot,
            order + with_root(root, front),
            root,
            scan_files(options, snapshot, root, state, front),
            files.last(),
        );
        assert((order + with_root(root, front)).push((root, files.last())) =~= order + with_root(
            root,
            files,
        ));
    }
}

proof fn lemma_roots_accounted(
    options: OptionsView,
    snapshot: DiscoverySnapshot,
    roots: Seq<(int, Seq<u8>)>,
)
    requires
        scan_roots(options, snapshot, roots) is Ok,
    ensures
        files_accounted(
            options,
            snapshot,
            precedence(options, snapshot, roots),
            scan_roots(options, snapshot, roots)->Ok_0,
        ),
    decreases roots.len(),
{
    let order = precedence(options, snapshot, roots);
    if roots.len() > 0 {
        let front = roots.drop_last();
        lemma_roots_accounted(options, snapshot, front);
        let state = scan_roots(options, snapshot, front)->Ok_0;
        let (files, warnings) = root_files(options, snapshot.roots@, roots.last().1)->Ok_0;
        let before = precedence(options, snapshot, front);
        let warned = ScanState { warnings: state.warnings + warnings, ..state };
        assert(files_accounted(options, snapshot, before, warned)) by {
            assert forall|k: int| 0 <= k < before.len() implies #[trigger] accounted(
                options,
                snapshot,
                before,
                warned,
                k,
            ) by {
                assert(accounted(options, snapshot, before, state, k));
                if exists|i: int|
                    0 <= i < state.warnings.len() && (#[trigger] state.warnings[i]).path
                        == before[k].1 {
                    let i = choose|i: int|
                        0 <= i < state.warnings.len() && (#[trigger] state.warnings[i]).path
                            == before[k].1;
                    assert(warned.warnings[i].path == before[k].1);
                }
            }
        }
        lemma_files_accounted(options, snapshot, before, roots.last(), warned, files);
    } else {
        let state = scan_roots(options, snapshot, roots)->Ok_0;
        assert forall|id: Seq<char>| #[trigger] seen_file(state.seen, id) is Some <==> exists|
            k: int,
        |
            0 <= k < order.len() && found_id(#[trigger] order[k]) == Some(id) by {}
    }
}

/// Nothing that can be listed is lost: where the first file with an ID
/// describes an application, the report lists one that starts alike.
pub proof fn every_first_file_is_listed(
    options: OptionsView,
    snapshot: DiscoverySnapshot,
    k: int,
    id: Seq<char>,
)
    requires
        discovery(options, snapshot) is Ok,
        is_first_with(precedence(options, snapshot, discovery_roots(options)->Ok_0), k, id),
        ({
            let found = precedence(options, snapshot, discovery_roots(options)->Ok_0)[k];
            file_application(options, snapshot, found.0.0, id, found.1) is Ok
        }),
    ensures
        ({
            let found = precedence(options, snapshot, discovery_roots(options)->Ok_0)[k];
            let a = file_application(options, snapshot, found.0.0, id, found.1)->Ok_0;
            exists|i: int|
                0 <= i < discovery(options, snapshot)->Ok_0.applications.len() && starts_alike(
                    #[trigger] discovery(options, snapshot)->Ok_0.applications[i],
                    a,
                )
        }),
{
    let roots = discovery_roots(options)->Ok_0;
    lemma_roots_accounted(options, snapshot, roots);
    let state = scan_roots(options, snapshot, roots)->Ok_0;
    let found = precedence(options, snapshot, roots)[k];
    let a = file_application(options, snapshot, found.0.0, id, found.1)->Ok_0;
    assert(state.applications.contains(a));
    super::laws::every_target_is_kept(state.applications, a);
    let kept = distinct_targets(state.applications).0;
    let b = choose|b: ApplicationView| #[trigger] kept.contains(b) && same_target(b, a);
    lemma_sorted_holds(kept, application_before(), b);
    let listed = discovery(options, snapshot)->Ok_0.applications;
    let i = choose|i: int| 0 <= i < listed.len() && listed[i] == b;
    assert(starts_alike(listed[i], a));
}

/// Every desktop file that was found is accounted for: an application of its
/// own stems from it, or a warning tells of it.
#[verifier::spinoff_prover]
#[verifier::rlimit(40)]
pub proof fn every_file_is_accounted_for(
    options: OptionsView,
    snapshot: DiscoverySnapshot,
    k: int,
)
    requires
        discovery(options, snapshot) is Ok,
        0 <= k < precedence(options, snapshot, discovery_roots(options)->Ok_0).len(),
    ensures
        ({
            let file = precedence(options, snapshot, discovery_roots(options)->Ok_0)[k].1;
            let report = discovery(options, snapshot)->Ok_0;
            ||| exists|i: int|
                0 <= i < report.applications.len() && (
                #[trigger] report.applications[i]).desktop_file == file
            ||| exists|i: int|
                0 <= i < report.warnings.len() && (#[trigger] report.warnings[i]).path == file
        }),
{
    let roots = discovery_roots(options)->Ok_0;
    let order = precedence(options, snapshot, roots);
    lemma_roots_accounted(options, snapshot, roots);
    let state = scan_roots(options, snapshot, roots)->Ok_0;
    let report = discovery(options, snapshot)->Ok_0;
    let all = state.warnings + distinct_targets(state.applications).1;
    let file = order[k].1;
    assert(report.applications == stable_sorted(
        distinct_targets(state.applications).0,
        application_before(),
    ));
    assert(report.warnings == stable_sorted(all, warning_before()));
    assert(accounted(options, snapshot, order, state, k));
    if exists|i: int| 0 <= i < state.warnings.len() && (#[trigger] state.warnings[i]).path == file {
        let i = choose|i: int|
            0 <= i < state.warnings.len() && (#[trigger] state.warnings[i]).path == file;
        assert(all[i] == state.warnings[i]);
        assert(all.contains(all[i]));
        lemma_warning_reported(all, all[i]);
    } else {
        let id = choose|id: Seq<char>| #[trigger]
            is_first_with(order, k, id) && yields(options, snapshot, order[k], state, id);
        let a = file_application(options, snapshot, order[k].0.0, id, file)->Ok_0;
        lemma_application_file(options, snapshot, order[k].0.0, id, file);
        lemma_application_reported(state, a);
    }
}

/// An application that was found is listed, or a warning tells of its file.
proof fn lemma_application_reported(state: ScanState, a: ApplicationView)
    requires
        state.applications.contains(a),
    ensures
        ({
            let (kept, duplicates) = distinct_targets(state.applications);
            let listed = stable_sorted(kept, application_before());
            let warned = stable_sorted(state.warnings + duplicates, warning_before());
            ||| exists|i: int|
                0 <= i < listed.len() && (#[trigger] listed[i]).desktop_file == a.desktop_file
            ||| exists|i: int|
                0 <= i < warned.len() && (#[trigger] warned[i]).path == a.desktop_file
        }),
{
    let (kept, duplicates) = distinct_targets(state.applications);
    let all = state.warnings + duplicates;
    lemma_dropped_is_warned(state.applications, a);
    if kept.contains(a) {
        let listed = stable_sorted(kept, application_before());
        lemma_sorted_holds(kept, application_before(), a);
        let i = choose|i: int| 0 <= i < listed.len() && listed[i] == a;
        assert(listed[i].desktop_file == a.desktop_file);
    } else {
        let i = choose|i: int|
            0 <= i < duplicates.len() && (#[trigger] duplicates[i]).path == a.desktop_file;
        assert(all[state.warnings.len() + i] == duplicates[i]);
        assert(all.contains(duplicates[i]));
        lemma_warning_reported(all, duplicates[i]);
    }
}

proof fn lemma_application_file(
    options: OptionsView,
    snapshot: DiscoverySnapshot,
    priority: int,
    id: Seq<char>,
    file: Seq<u8>,
)
    requires
        file_application(options, snapshot, priority, id, file) is Ok,
    ensures
        file_application(options, snapshot, priority, id, file)->Ok_0.desktop_file == file,
{
    let entry = super::scanner::file_entry(snapshot.files@, file)->Ok_0;
    applications_are_as_their_entry_says(
        options,
        crate::text::views(snapshot.executables@),
        id,
        file,
        priority,
        entry,
    );
}

proof fn lemma_warning_reported(all: Seq<WarningView>, w: WarningView)
    requires
        all.contains(w),
    ensures
        exists|i: int|
            0 <= i < stable_sorted(all, warning_before()).len() && (#[trigger] stable_sorted(
                all,
                warning_before(),
            )[i]).path == w.path,
{
    lemma_sorted_holds(all, warning_before(), w);
    let sorted = stable_sorted(all, warning_before());
    let i = choose|i: int| 0 <= i < sorted.len() && sorted[i] == w;
    assert(sorted[i].path == w.path);
}

proof fn lemma_dropped_is_warned(all: Seq<ApplicationView>, a: ApplicationView)
    requires
        all.contains(a),
    ensures
        distinct_targets(all).0.contains(a) || exists|i: int|
            0 <= i < distinct_targets(all).1.len() && (#[trigger] distinct_targets(all).1[i]).path
                == a.desktop_file,
    decreases all.len(),
{
    let front = all.drop_last();
    let (kept, warnings) = distinct_targets(front);
    let (after, more) = distinct_targets(all);
    if front.contains(a) {
        lemma_dropped_is_warned(front, a);
        if kept.contains(a) {
            let i = choose|i: int| 0 <= i < kept.len() && kept[i] == a;
            assert(after[i] == a);
        } else {
            let i = choose|i: int|
                0 <= i < warnings.len() && (#[trigger] warnings[i]).path == a.desktop_file;
            assert(more[i].path == a.desktop_file);
        }
    } else {
        let k = choose|k: int| 0 <= k < all.len() && all[k] == a;
        if k < front.len() {
            assert(front[k] == a);
        }
        assert(a == all.last());
        match equivalent(kept, a) {
            Some(_) => {
                assert(more[warnings.len() as int].path == a.desktop_file);
            },
            None => {
                assert(after[kept.len() as int] == a);
            },
        }
    }
}

} // verus!
