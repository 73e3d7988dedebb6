//! What holds of every discovery report.
use vstd::prelude::*;

use super::desktop_entry::DesktopEntryView;
use super::scanner::{
    application, application_before, desktop_id, discovery, discovery_roots, distinct_targets,
    equivalent, file_application, root_files, same_target, scan_file, scan_files, scan_roots,
    scanned, scanned_entries, scanned_entry, seen_file, visible, warning_before, DirectoryScan,
    DiscoverySnapshot, EntryKind, OptionsView, RootScan, ScanEntry, ScanState,
};
use super::types::{ApplicationView, WarningView};
use crate::order::{in_order, lemma_sorted_holds, stable_sorted};
use crate::path::{
    components, components_before, lemma_components_irreflexive, lemma_components_total,
    lemma_components_transitive, same_path, UnixPath,
};
use crate::text::{
    lemma_before_irreflexive, lemma_before_total, lemma_before_transitive, text_before,
};

verus! {

/// A desktop file with the root that it was found below.
pub type FoundFile = ((int, Seq<u8>), Seq<u8>);

pub open spec fn with_root(root: (int, Seq<u8>), files: Seq<Seq<u8>>) -> Seq<FoundFile> {
    files.map_values(|file: Seq<u8>| (root, file))
}

/// The desktop files in the order of precedence: root by root, and in path
/// order within a root.
pub open spec fn precedence(
    options: OptionsView,
    snapshot: DiscoverySnapshot,
    roots: Seq<(int, Seq<u8>)>,
) -> Seq<FoundFile>
    decreases roots.len(),
{
    if roots.len() == 0 {
        Seq::empty()
    } else {
        precedence(options, snapshot, roots.drop_last()) + with_root(
            roots.last(),
            root_files(options, snapshot.roots@, roots.last().1)->Ok_0.0,
        )
    }
}

pub open spec fn found_id(found: FoundFile) -> Option<Seq<char>> {
    desktop_id(found.0.1, found.1)
}

/// The file at `k` is the first in the order of precedence with an ID.
pub open spec fn is_first_with(order: Seq<FoundFile>, k: int, id: Seq<char>) -> bool {
    &&& 0 <= k < order.len()
    &&& found_id(order[k]) == Some(id)
    &&& forall|m: int| 0 <= m < k ==> found_id(#[trigger] order[m]) != Some(id)
}

/// An application is that of the first file with its ID.
pub open spec fn stems_from_first(
    options: OptionsView,
    snapshot: DiscoverySnapshot,
    order: Seq<FoundFile>,
    a: ApplicationView,
) -> bool {
    exists|k: int|
        #[trigger] is_first_with(order, k, a.desktop_id) && file_application(
            options,
            snapshot,
            order[k].0.0,
            a.desktop_id,
            order[k].1,
        ) == Ok::<ApplicationView, WarningView>(a)
}

pub open spec fn distinct_ids(all: Seq<ApplicationView>) -> bool {
    forall|i: int, j: int|
        0 <= i < j < all.len() ==> (#[trigger] all[i]).desktop_id != (#[trigger] all[j]).desktop_id
}

spec fn scan_invariant(
    options: OptionsView,
    snapshot: DiscoverySnapshot,
    order: Seq<FoundFile>,
    state: ScanState,
) -> bool {
    &&& forall|id: Seq<char>| #[trigger]
        seen_file(state.seen, id) is Some <==> exists|k: int|
            0 <= k < order.len() && found_id(#[trigger] order[k]) == Some(id)
    &&& forall|i: int|
        0 <= i < state.applications.len() ==> stems_from_first(
            options,
            snapshot,
            order,
            #[trigger] state.applications[i],
        )
    &&& distinct_ids(state.applications)
    &&& forall|i: int|
        0 <= i < state.warnings.len() ==> (#[trigger] state.warnings[i]).skipped
}

proof fn lemma_application_id(
    options: OptionsView,
    snapshot: DiscoverySnapshot,
    priority: int,
    id: Seq<char>,
    file: Seq<u8>,
)
    ensures
        match file_application(options, snapshot, priority, id, file) {
            Ok(a) => a.desktop_id == id && a.desktop_file == file && a.source_priority == priority,
            Err(w) => w.skipped,
        },
{
}

proof fn lemma_first_extends(order: Seq<FoundFile>, more: FoundFile, k: int, id: Seq<char>)
    requires
        is_first_with(order, k, id),
    ensures
        is_first_with(order.push(more), k, id),
{
    let longer = order.push(more);
    assert forall|m: int| 0 <= m < k implies found_id(#[trigger] longer[m]) != Some(id) by {
        assert(longer[m] == order[m]);
    }
}

proof fn lemma_scan_file(
    options: OptionsView,
    snapshot: DiscoverySnapshot,
    order: Seq<FoundFile>,
    root: (int, Seq<u8>),
    state: ScanState,
    file: Seq<u8>,
)
    requires
        scan_invariant(options, snapshot, order, state),
    ensures
        scan_invariant(
            options,
            snapshot,
            order.push((root, file)),
            scan_file(options, snapshot, root, state, file),
        ),
{
    let longer = order.push((root, file));
    let after = scan_file(options, snapshot, root, state, file);
    let last = order.len() as int;
    assert(longer[last] == (root, file));
    let new_id = desktop_id(root.1, file);
    assert forall|i: int| 0 <= i < state.applications.len() implies stems_from_first(
        options,
        snapshot,
        longer,
        #[trigger] state.applications[i],
    ) by {
        let a = state.applications[i];
        let k = choose|k: int|
            #[trigger] is_first_with(order, k, a.desktop_id) && file_application(
                options,
                snapshot,
                order[k].0.0,
                a.desktop_id,
                order[k].1,
            ) == Ok::<ApplicationView, WarningView>(a);
        lemma_first_extends(order, (root, file), k, a.desktop_id);
        assert(longer[k] == order[k]);
    }
    assert forall|id: Seq<char>| #[trigger] seen_file(after.seen, id) is Some <==> exists|k: int|
        0 <= k < longer.len() && found_id(#[trigger] longer[k]) == Some(id) by {
        if seen_file(state.seen, id) is Some {
            let k = choose|k: int| 0 <= k < order.len() && found_id(#[trigger] order[k]) == Some(id);
            assert(found_id(longer[k]) == Some(id));
        }
        if new_id == Some(id) {
            assert(found_id(longer[last]) == Some(id));
        }
        if exists|k: int| 0 <= k < longer.len() && found_id(#[trigger] longer[k]) == Some(id) {
            let k = choose|k: int| 0 <= k < longer.len() && found_id(#[trigger] longer[k]) == Some(id);
            if k < last {
                assert(found_id(order[k]) == Some(id));
            }
        }
        if after.seen != state.seen {
            assert(after.seen.drop_last() =~= state.seen);
        }
    }
    if new_id is Some && seen_file(state.seen, new_id->0) is None {
        let id = new_id->0;
        lemma_application_id(options, snapshot, root.0, id, file);
        assert(is_first_with(longer, last, id)) by {
            assert forall|m: int| 0 <= m < last implies found_id(#[trigger] longer[m]) != Some(
                id,
            ) by {
                assert(longer[m] == order[m]);
                if found_id(order[m]) == Some(id) {
                    assert(seen_file(state.seen, id) is Some);
                }
            }
        }
        match file_application(options, snapshot, root.0, id, file) {
            Ok(a) => {
                assert(after.applications =~= state.applications.push(a));
                assert(stems_from_first(options, snapshot, longer, a));
                assert forall|i: int, j: int| 0 <= i < j < after.applications.len() implies (
                #[trigger] after.applications[i]).desktop_id != (
                #[trigger] after.applications[j]).desktop_id by {
                    if j == state.applications.len() {
                        let b = state.applications[i];
                        assert(stems_from_first(options, snapshot, order, b));
                        let k = choose|k: int|
                            #[trigger] is_first_with(order, k, b.desktop_id) && file_application(
                                options,
                                snapshot,
                                order[k].0.0,
                                b.desktop_id,
                                order[k].1,
                            ) == Ok::<ApplicationView, WarningView>(b);
                        if b.desktop_id == id {
                            assert(found_id(order[k]) == Some(id));
                            assert(seen_file(state.seen, id) is Some);
                        }
                    }
                }
            },
            Err(w) => {},
        }
    }
}

proof fn lemma_scan_files(
    options: OptionsView,
    snapshot: DiscoverySnapshot,
    order: Seq<FoundFile>,
    root: (int, Seq<u8>),
    state: ScanState,
    files: Seq<Seq<u8>>,
)
    requires
        scan_invariant(options, snapshot, order, state),
    ensures
        scan_invariant(
            options,
            snapshot,
            order + with_root(root, files),
            scan_files(options, snapshot, root, state, files),
        ),
    decreases files.len(),
{
    if files.len() == 0 {
        assert(order + with_root(root, files) =~= order);
    } else {
        let front = files.drop_last();
        lemma_scan_files(options, snapshot, order, root, state, front);
        lemma_scan_file(
            options,
            snapshot,
            order + with_root(root, front),
            root,
            scan_files(options, snapshot, root, state, front),
            files.last(),
        );
        assert((order + with_root(root, front)).push((root, files.last())) =~= order + with_root(
            root,
            files,
        ));
    }
}

/// Every diagnostic of a directory scan is about something left out.
proof fn lemma_scanned_skips(directory: Seq<u8>, scan: DirectoryScan)
    ensures
        forall|i: int|
            0 <= i < scanned(directory, scan).1.len() ==> (#[trigger] scanned(
                directory,
                scan,
            ).1[i]).skipped,
    decreases scan, 0int,
{
    match scan {
        DirectoryScan::Failed(_) => {},
        DirectoryScan::Entries(entries) => {
            lemma_scanned_entries_skip(directory, entries, entries@.len() as int);
        },
    }
}

proof fn lemma_scanned_entries_skip(directory: Seq<u8>, entries: Vec<ScanEntry>, count: int)
    ensures
        forall|i: int|
            0 <= i < scanned_entries(directory, entries, count).1.len() ==> (
            #[trigger] scanned_entries(directory, entries, count).1[i]).skipped,
    decreases entries, count,
{
    if count <= 0 || count > entries@.len() {
    } else {
        lemma_scanned_entries_skip(directory, entries, count - 1);
        lemma_scanned_entry_skips(directory, entries[count - 1]);
        let front = scanned_entries(directory, entries, count - 1).1;
        let last = scanned_entry(directory, entries[count - 1]).1;
        assert forall|i: int|
            0 <= i < scanned_entries(directory, entries, count).1.len() implies (
        #[trigger] scanned_entries(directory, entries, count).1[i]).skipped by {
            if i < front.len() {
                assert(front[i].skipped);
            } else {
                assert(last[i - front.len()].skipped);
            }
        }
    }
}

proof fn lemma_scanned_entry_skips(directory: Seq<u8>, entry: ScanEntry)
    ensures
        forall|i: int|
            0 <= i < scanned_entry(directory, entry).1.len() ==> (#[trigger] scanned_entry(
                directory,
                entry,
            ).1[i]).skipped,
    decreases entry, 0int,
{
    match entry {
        ScanEntry::Failed(_) => {},
        ScanEntry::Entry { name, kind } => match kind {
            EntryKind::Directory(inner) => {
                lemma_scanned_skips(crate::path::joined(directory, name@), inner);
            },
            _ => {},
        },
    }
}

proof fn lemma_root_skips(
    options: OptionsView,
    roots: Seq<(UnixPath, RootScan)>,
    root: Seq<u8>,
)
    requires
        root_files(options, roots, root) is Ok,
    ensures
        forall|i: int|
            0 <= i < root_files(options, roots, root)->Ok_0.1.len() ==> (#[trigger] root_files(
                options,
                roots,
                root,
            )->Ok_0.1[i]).skipped,
{
    match super::scanner::root_at(roots, root) {
        Some(RootScan::Directory(scan)) => {
            lemma_scanned_skips(root, scan);
        },
        _ => {},
    }
}

proof fn lemma_scan_roots(
    options: OptionsView,
    snapshot: DiscoverySnapshot,
    roots: Seq<(int, Seq<u8>)>,
)
    requires
        scan_roots(options, snapshot, roots) is Ok,
    ensures
        scan_invariant(
            options,
            snapshot,
            precedence(options, snapshot, roots),
            scan_roots(options, snapshot, roots)->Ok_0,
        ),
    decreases roots.len(),
{
    if roots.len() > 0 {
        let front = roots.drop_last();
        lemma_scan_roots(options, snapshot, front);
        let state = scan_roots(options, snapshot, front)->Ok_0;
        let (files, warnings) = root_files(options, snapshot.roots@, roots.last().1)->Ok_0;
        let order = precedence(options, snapshot, front);
        let warned = ScanState { warnings: state.warnings + warnings, ..state };
        lemma_root_skips(options, snapshot.roots@, roots.last().1);
        assert forall|i: int| 0 <= i < warned.warnings.len() implies (
        #[trigger] warned.warnings[i]).skipped by {
            if i < state.warnings.len() {
                assert(state.warnings[i].skipped);
            } else {
                assert(warnings[i - state.warnings.len()].skipped);
            }
        }
        assert(scan_invariant(options, snapshot, order, warned));
        lemma_scan_files(options, snapshot, order, roots.last(), warned, files);
    } else {
        let state = scan_roots(options, snapshot, roots)->Ok_0;
        let order = precedence(options, snapshot, roots);
        assert forall|id: Seq<char>| #[trigger]
            seen_file(state.seen, id) is Some <==> exists|k: int|
            0 <= k < order.len() && found_id(#[trigger] order[k]) == Some(id) by {}
    }
}

pub open spec fn all_targets_distinct(all: Seq<ApplicationView>) -> bool {
    forall|i: int, j: int|
        0 <= i < j < all.len() ==> !same_target(#[trigger] all[i], #[trigger] all[j])
}

proof fn lemma_equivalent(kept: Seq<ApplicationView>, other: ApplicationView, i: int)
    requires
        equivalent(kept, other) is None,
        0 <= i < kept.len(),
    ensures
        !same_target(kept[i], other),
    decreases kept.len(),
{
    if i < kept.len() - 1 {
        lemma_equivalent(kept.drop_last(), other, i);
    }
}

proof fn lemma_distinct_targets(all: Seq<ApplicationView>)
    ensures
        all_targets_distinct(distinct_targets(all).0),
        forall|a: ApplicationView| #[trigger]
            distinct_targets(all).0.contains(a) ==> all.contains(a),
        distinct_ids(all) ==> distinct_ids(distinct_targets(all).0),
        forall|i: int|
            0 <= i < distinct_targets(all).1.len() ==> (#[trigger] distinct_targets(
                all,
            ).1[i]).skipped,
    decreases all.len(),
{
    if all.len() > 0 {
        let front = all.drop_last();
        let last = all.last();
        lemma_distinct_targets(front);
        let (kept, warnings) = distinct_targets(front);
        let after = distinct_targets(all).0;
        assert forall|a: ApplicationView| #[trigger] after.contains(a) implies all.contains(a) by {
            if kept.contains(a) {
                assert(front.contains(a));
                let k = choose|k: int| 0 <= k < front.len() && front[k] == a;
                assert(all[k] == a);
            } else {
                let k = choose|k: int| 0 <= k < after.len() && after[k] == a;
                if k < kept.len() {
                    assert(kept[k] == a);
                }
                assert(all[all.len() - 1] == a);
            }
        }
        if equivalent(kept, last) is None {
            assert forall|i: int, j: int| 0 <= i < j < after.len() implies !same_target(
                #[trigger] after[i],
                #[trigger] after[j],
            ) by {
                if j == kept.len() {
                    lemma_equivalent(kept, last, i);
                } else {
                    assert(!same_target(kept[i], kept[j]));
                }
            }
        }
        if distinct_ids(all) {
            assert(distinct_ids(front)) by {
                assert forall|i: int, j: int| 0 <= i < j < front.len() implies (
                #[trigger] front[i]).desktop_id != (#[trigger] front[j]).desktop_id by {
                    assert(all[i].desktop_id != all[j].desktop_id);
                }
            }
            assert forall|i: int, j: int| 0 <= i < j < after.len() implies (
            #[trigger] after[i]).desktop_id != (#[trigger] after[j]).desktop_id by {
                if j == kept.len() {
                    assert(kept.contains(kept[i]));
                    assert(front.contains(kept[i]));
                    let k = choose|k: int| 0 <= k < front.len() && front[k] == kept[i];
                    assert(all[k].desktop_id != all[all.len() - 1].desktop_id);
                } else {
                    assert(kept[i].desktop_id != kept[j].desktop_id);
                }
            }
        }
    }
}

/// Every application of a report is that of the first file with its ID in the
/// order of precedence. So a file that an earlier one overrides never shows,
/// and an ID whose first file is hidden, or left out for another reason, does
/// not show at all.
pub proof fn first_file_decides(
    options: OptionsView,
    snapshot: DiscoverySnapshot,
    a: ApplicationView,
)
    requires
        discovery(options, snapshot) is Ok,
        discovery(options, snapshot)->Ok_0.applications.contains(a),
    ensures
        stems_from_first(
            options,
            snapshot,
            precedence(options, snapshot, discovery_roots(options)->Ok_0),
            a,
        ),
{
    let roots = discovery_roots(options)->Ok_0;
    lemma_scan_roots(options, snapshot, roots);
    let state = scan_roots(options, snapshot, roots)->Ok_0;
    let kept = distinct_targets(state.applications).0;
    lemma_sorted_holds(kept, application_before(), a);
    lemma_distinct_targets(state.applications);
    assert(kept.contains(a));
    assert(state.applications.contains(a));
    let i = choose|i: int| 0 <= i < state.applications.len() && state.applications[i] == a;
    assert(stems_from_first(
        options,
        snapshot,
        precedence(options, snapshot, roots),
        state.applications[i],
    ));
}

proof fn lemma_ids_order()
    ensures
        crate::order::strict_weak_order(application_before()),
{
    let before = application_before();
    assert forall|a: ApplicationView, b: ApplicationView| #[trigger] before(a, b) implies !before(
        b,
        a,
    ) by {
        if before(b, a) {
            crate::text::lemma_before_transitive(a.desktop_id, b.desktop_id, a.desktop_id);
            crate::text::lemma_before_irreflexive(a.desktop_id);
        }
    }
    assert forall|a: ApplicationView, b: ApplicationView, c: ApplicationView|
        !(#[trigger] before(a, b)) && !(#[trigger] before(b, c)) implies !before(a, c) by {
        if before(a, c) {
            crate::text::lemma_before_total(b.desktop_id, c.desktop_id);
            crate::text::lemma_before_total(a.desktop_id, b.desktop_id);
            if b.desktop_id == c.desktop_id {
            } else if a.desktop_id == b.desktop_id {
            } else {
                crate::text::lemma_before_transitive(c.desktop_id, b.desktop_id, a.desktop_id);
                crate::text::lemma_before_transitive(a.desktop_id, c.desktop_id, a.desktop_id);
                crate::text::lemma_before_irreflexive(a.desktop_id);
            }
        }
    }
}

/// The applications of a report are in strictly ascending order of their IDs,
/// and no two of them start the same target.
pub proof fn report_lists_each_application_once(options: OptionsView, snapshot: DiscoverySnapshot)
    requires
        discovery(options, snapshot) is Ok,
    ensures
        forall|i: int, j: int|
            0 <= i < j < discovery(options, snapshot)->Ok_0.applications.len() ==> text_before(
                (#[trigger] discovery(options, snapshot)->Ok_0.applications[i]).desktop_id,
                (#[trigger] discovery(options, snapshot)->Ok_0.applications[j]).desktop_id,
            ),
        forall|i: int, j: int|
            0 <= i < j < discovery(options, snapshot)->Ok_0.applications.len() ==> !same_target(
                #[trigger] discovery(options, snapshot)->Ok_0.applications[i],
                #[trigger] discovery(options, snapshot)->Ok_0.applications[j],
            ),
{
    let roots = discovery_roots(options)->Ok_0;
    lemma_scan_roots(options, snapshot, roots);
    let state = scan_roots(options, snapshot, roots)->Ok_0;
    let kept = distinct_targets(state.applications).0;
    lemma_distinct_targets(state.applications);
    lemma_ids_order();
    crate::order::lemma_stable_sorted_order(kept, application_before());
    let all = stable_sorted(kept, application_before());
    assert forall|i: int, j: int| 0 <= i < j < all.len() implies text_before(
        (#[trigger] all[i]).desktop_id,
        (#[trigger] all[j]).desktop_id,
    ) && !same_target(all[i], all[j]) by {
        let (k, m) = lemma_sorted_positions(kept, application_before(), i, j);
        if k < m {
            assert(kept[k].desktop_id != kept[m].desktop_id);
            assert(!same_target(kept[k], kept[m]));
        } else {
            assert(kept[m].desktop_id != kept[k].desktop_id);
            assert(!same_target(kept[m], kept[k]));
        }
        assert(!application_before()(all[j], all[i]));
        crate::text::lemma_before_total(all[i].desktop_id, all[j].desktop_id);
    }
}

/// Two places in a sorted sequence hold the items of two places before.
proof fn lemma_sorted_positions<T>(s: Seq<T>, before: spec_fn(T, T) -> bool, i: int, j: int) -> (r: (
    int,
    int,
))
    requires
        0 <= i < j < stable_sorted(s, before).len(),
    ensures
        0 <= r.0 < s.len(),
        0 <= r.1 < s.len(),
        r.0 != r.1,
        stable_sorted(s, before)[i] == s[r.0],
        stable_sorted(s, before)[j] == s[r.1],
    decreases s.len(),
{
    let front = s.drop_last();
    let f = stable_sorted(front, before);
    let all = stable_sorted(s, before);
    crate::order::lemma_stable_sorted_permutes(front, before);
    crate::order::lemma_stable_sorted_permutes(s, before);
    let at = lemma_insert_position(f, s.last(), before);
    let i2 = if i < at {
        i
    } else {
        i - 1
    };
    let j2 = if j < at {
        j
    } else {
        j - 1
    };
    if i == at {
        lemma_sorted_holds(front, before, f[j2]);
        assert(f.contains(f[j2]));
        let k = choose|k: int| 0 <= k < front.len() && front[k] == f[j2];
        (s.len() - 1, k)
    } else if j == at {
        lemma_sorted_holds(front, before, f[i2]);
        assert(f.contains(f[i2]));
        let k = choose|k: int| 0 <= k < front.len() && front[k] == f[i2];
        (k, s.len() - 1)
    } else {
        lemma_sorted_positions(front, before, i2, j2)
    }
}

proof fn lemma_insert_position<T>(s: Seq<T>, x: T, before: spec_fn(T, T) -> bool) -> (at: int)
    ensures
        0 <= at <= s.len(),
        crate::order::insert_sorted(s, x, before) == s.insert(at, x),
    decreases s.len(),
{
    if s.len() == 0 || !before(x, s.last()) {
        assert(s.push(x) =~= s.insert(s.len() as int, x));
        s.len() as int
    } else {
        let at = lemma_insert_position(s.drop_last(), x, before);
        assert(s.drop_last().insert(at, x).push(s.last()) =~= s.insert(at, x));
        at
    }
}

/// Every diagnostic of a report is about an entry that was left out.
pub proof fn every_warning_is_a_skip(options: OptionsView, snapshot: DiscoverySnapshot)
    requires
        discovery(options, snapshot) is Ok,
    ensures
        forall|i: int|
            0 <= i < discovery(options, snapshot)->Ok_0.warnings.len() ==> (#[trigger] discovery(
                options,
                snapshot,
            )->Ok_0.warnings[i]).skipped,
{
    let roots = discovery_roots(options)->Ok_0;
    lemma_scan_roots(options, snapshot, roots);
    let state = scan_roots(options, snapshot, roots)->Ok_0;
    let duplicates = distinct_targets(state.applications).1;
    lemma_distinct_targets(state.applications);
    let all = state.warnings + duplicates;
    let sorted = stable_sorted(all, warning_before());
    assert forall|i: int| 0 <= i < sorted.len() implies (#[trigger] sorted[i]).skipped by {
        lemma_sorted_holds(all, warning_before(), sorted[i]);
        assert(sorted.contains(sorted[i]));
        let k = choose|k: int| 0 <= k < all.len() && all[k] == sorted[i];
        if k < state.warnings.len() {
            assert(state.warnings[k].skipped);
        } else {
            assert(duplicates[k - state.warnings.len()].skipped);
        }
    }
}

spec fn same_warning(a: WarningView, b: WarningView) -> bool {
    &&& same_path(a.path, b.path)
    &&& a.category == b.category
    &&& a.severity == b.severity
    &&& a.reason == b.reason
    &&& a.skipped == b.skipped
}

proof fn lemma_warning_total(a: WarningView, b: WarningView)
    ensures
        same_warning(a, b) || warning_before()(a, b) || warning_before()(b, a),
        !(warning_before()(a, b) && warning_before()(b, a)),
        same_warning(a, b) ==> !warning_before()(a, b),
{
    let x = components(a.path);
    let y = components(b.path);
    lemma_components_total(x, y);
    if components_before(x, y) && components_before(y, x) {
        lemma_components_transitive(x, y, x);
        lemma_components_irreflexive(x);
    }
    lemma_before_total(a.reason, b.reason);
    if text_before(a.reason, b.reason) && text_before(b.reason, a.reason) {
        lemma_before_transitive(a.reason, b.reason, a.reason);
        lemma_before_irreflexive(a.reason);
    }
}

proof fn lemma_warning_transitive(a: WarningView, b: WarningView, c: WarningView)
    requires
        warning_before()(a, b) || same_warning(a, b),
        warning_before()(b, c) || same_warning(b, c),
    ensures
        warning_before()(a, c) || same_warning(a, c),
{
    let x = components(a.path);
    let y = components(b.path);
    let z = components(c.path);
    if x != y && y != z {
        lemma_components_transitive(x, y, z);
        lemma_components_irreflexive(x);
    }
    if x == y && y == z && a.category == b.category && b.category == c.category && a.severity
        == b.severity && b.severity == c.severity && a.reason != b.reason && b.reason != c.reason {
        lemma_before_transitive(a.reason, b.reason, c.reason);
        lemma_before_irreflexive(a.reason);
    }
}

/// The diagnostics of a report are in the order of their paths, categories,
/// severities and reasons.
pub proof fn warnings_are_in_order(options: OptionsView, snapshot: DiscoverySnapshot)
    requires
        discovery(options, snapshot) is Ok,
    ensures
        in_order(discovery(options, snapshot)->Ok_0.warnings, warning_before()),
{
    let before = warning_before();
    assert forall|a: WarningView, b: WarningView| #[trigger] before(a, b) implies !before(b, a) by {
        lemma_warning_total(a, b);
    }
    assert forall|a: WarningView, b: WarningView, c: WarningView|
        !(#[trigger] before(a, b)) && !(#[trigger] before(b, c)) implies !before(a, c) by {
        lemma_warning_total(a, b);
        lemma_warning_total(b, c);
        lemma_warning_total(a, c);
        lemma_warning_total(c, a);
        lemma_same_warning_symmetric(a, b);
        lemma_same_warning_symmetric(b, c);
        lemma_warning_transitive(c, b, a);
    }
    let roots = discovery_roots(options)->Ok_0;
    let state = scan_roots(options, snapshot, roots)->Ok_0;
    crate::order::lemma_stable_sorted_order(
        state.warnings + distinct_targets(state.applications).1,
        before,
    );
}

proof fn lemma_equivalent_is_kept(kept: Seq<ApplicationView>, other: ApplicationView)
    requires
        equivalent(kept, other) is Some,
    ensures
        kept.contains(equivalent(kept, other)->0),
        same_target(equivalent(kept, other)->0, other),
    decreases kept.len(),
{
    if same_target(kept.last(), other) {
        assert(kept[kept.len() - 1] == kept.last());
    } else {
        let front = kept.drop_last();
        lemma_equivalent_is_kept(front, other);
        let k = choose|k: int| 0 <= k < front.len() && front[k] == equivalent(front, other)->0;
        assert(kept[k] == equivalent(kept, other)->0);
    }
}

/// Of applications with the same target one stays: what is left out as a
/// duplicate starts what a kept application starts.
pub proof fn every_target_is_kept(all: Seq<ApplicationView>, a: ApplicationView)
    requires
        all.contains(a),
    ensures
        exists|b: ApplicationView| #[trigger]
            distinct_targets(all).0.contains(b) && same_target(b, a),
    decreases all.len(),
{
    let front = all.drop_last();
    let last = all.last();
    let kept = distinct_targets(front).0;
    let after = distinct_targets(all).0;
    let k = choose|k: int| 0 <= k < all.len() && all[k] == a;
    if k < front.len() {
        assert(front[k] == a);
        every_target_is_kept(front, a);
        let b = choose|b: ApplicationView| #[trigger] kept.contains(b) && same_target(b, a);
        let m = choose|m: int| 0 <= m < kept.len() && kept[m] == b;
        assert(after[m] == b);
        assert(after.contains(b));
    } else if equivalent(kept, last) is Some {
        lemma_equivalent_is_kept(kept, last);
        assert(after.contains(equivalent(kept, last)->0));
    } else {
        assert(after[kept.len() as int] == last);
        assert(after.contains(last));
    }
}

/// An entry that is hidden describes no application, whatever the options say.
pub proof fn hidden_is_never_listed(
    options: OptionsView,
    executables: Seq<Seq<u8>>,
    id: Seq<char>,
    file: Seq<u8>,
    priority: int,
    entry: DesktopEntryView,
)
    requires
        entry.hidden,
    ensures
        application(options, executables, id, file, priority, entry) is Err,
{
}

/// Asking for entries that are not displayed makes a difference to those
/// entries alone.
pub proof fn all_affects_only_no_display(
    options: OptionsView,
    executables: Seq<Seq<u8>>,
    id: Seq<char>,
    file: Seq<u8>,
    priority: int,
    entry: DesktopEntryView,
    all: bool,
)
    requires
        !entry.no_display,
    ensures
        application(
            OptionsView { include_no_display: all, ..options },
            executables,
            id,
            file,
            priority,
            entry,
        ) == application(options, executables, id, file, priority, entry),
{
}

/// Ignoring the desktop filter makes a difference to the entries alone that
/// the filter leaves out.
pub proof fn ignoring_the_filter_affects_only_filtered(
    options: OptionsView,
    executables: Seq<Seq<u8>>,
    id: Seq<char>,
    file: Seq<u8>,
    priority: int,
    entry: DesktopEntryView,
    ignore: bool,
)
    requires
        visible(entry, options.current_desktops),
    ensures
        application(
            OptionsView { ignore_desktop_filter: ignore, ..options },
            executables,
            id,
            file,
            priority,
            entry,
        ) == application(options, executables, id, file, priority, entry),
{
}

/// What `TryExec` names decides whether an application is listed and never
/// what it starts: two entries that differ there alone describe the same
/// application, where both describe one.
pub proof fn try_exec_never_replaces_the_command(
    options: OptionsView,
    executables: Seq<Seq<u8>>,
    id: Seq<char>,
    file: Seq<u8>,
    priority: int,
    entry: DesktopEntryView,
    try_exec: Option<Seq<char>>,
)
    requires
        application(options, executables, id, file, priority, entry) is Ok,
        application(
            options,
            executables,
            id,
            file,
            priority,
            DesktopEntryView { try_exec, ..entry },
        ) is Ok,
    ensures
        application(
            options,
            executables,
            id,
            file,
            priority,
            DesktopEntryView { try_exec, ..entry },
        ) == application(options, executables, id, file, priority, entry),
{
}

proof fn lemma_same_warning_symmetric(a: WarningView, b: WarningView)
    ensures
        same_warning(a, b) == same_warning(b, a),
{
}

} // verus!
