//! Taking back the overrides that suppress duplicate autostart entries.
use vstd::prelude::*;

use super::autostart::{usable_id, validate_desktop_id};
use super::error::{IntegrationError, IntegrationErrorView};
use super::files::{
    owned_autostart_contents, owned_override, FileState, FileStateView, OwnedFile, OwnedView,
};
use super::paths::{failure, user_root_failure, validate_user_root, AncestorState, PathsView};
use super::startup::{ActionView, StartupAction, StartupManager};
use crate::order::{stable_sort, stable_sorted};
use crate::path::{are_bytes_before, bytes_before, joined, path_text, UnixPath};
use crate::text::{group_views, same_text, views};

verus! {

/// One entry of the autostart directory.
#[derive(Debug, PartialEq, Eq)]
pub struct AutostartEntry {
    /// The name of the entry.
    pub name: UnixPath,
    pub state: FileState,
}

impl View for AutostartEntry {
    type V = (Seq<u8>, FileStateView);

    open spec fn view(&self) -> (Seq<u8>, FileStateView) {
        (self.name@, self.state@)
    }
}

/// The outcome of listing the autostart directory.
#[derive(Debug, PartialEq, Eq)]
pub enum AutostartListing {
    Missing,
    Entries(Vec<AutostartEntry>),
    /// The directory could not be listed; the system's message.
    Failed(String),
}

/// The removal of overrides: the files to remove, in order, and the IDs of
/// their applications. Where there is a failure, it comes after the removals.
#[derive(Debug, PartialEq, Eq)]
pub struct SuppressionRemoval {
    pub actions: Vec<StartupAction>,
    pub removed: Vec<String>,
    pub failure: Option<IntegrationError>,
}

/// A removal by its contents.
pub struct RemovalView {
    pub actions: Seq<ActionView>,
    pub removed: Seq<Seq<char>>,
    pub failure: Option<IntegrationErrorView>,
}

impl View for SuppressionRemoval {
    type V = RemovalView;

    open spec fn view(&self) -> RemovalView {
        RemovalView {
            actions: views(self.actions@),
            removed: views(self.removed@),
            failure: match self.failure {
                Some(e) => Some(e@),
                None => None,
            },
        }
    }
}

/// What an entry of the autostart directory is to the removal of overrides.
pub enum EntryVerdict {
    /// It is none of the launcher's.
    Leave,
    /// It is the override for an application.
    Remove { desktop_id: Seq<char> },
    /// It could not be read.
    Fail { source: Seq<char> },
}

pub open spec fn entry_verdict(entry: (Seq<u8>, FileStateView)) -> EntryVerdict {
    match path_text(entry.0) {
        None => EntryVerdict::Leave,
        Some(desktop_id) => if !usable_id(desktop_id) {
            EntryVerdict::Leave
        } else {
            match entry.1 {
                FileStateView::Missing | FileStateView::Symlink | FileStateView::NotFile => {
                    EntryVerdict::Leave
                },
                FileStateView::Unreadable(source) => EntryVerdict::Fail { source },
                FileStateView::Failed(source) => EntryVerdict::Fail { source },
                FileStateView::Text(text) => if text == owned_override(desktop_id) {
                    EntryVerdict::Remove { desktop_id }
                } else {
                    EntryVerdict::Leave
                },
            }
        },
    }
}

/// The removal for entries in order.
pub open spec fn removal(directory: Seq<u8>, entries: Seq<(Seq<u8>, FileStateView)>) -> RemovalView
    decreases entries.len(),
{
    if entries.len() == 0 {
        RemovalView { actions: Seq::empty(), removed: Seq::empty(), failure: None }
    } else {
        let front = removal(directory, entries.drop_last());
        let path = joined(directory, entries.last().0);
        if front.failure is Some {
            front
        } else {
            match entry_verdict(entries.last()) {
                EntryVerdict::Leave => front,
                EntryVerdict::Remove { desktop_id } => RemovalView {
                    actions: front.actions.push(
                        ActionView::Remove {
                            path,
                            owned: OwnedView::Exactly(owned_override(desktop_id)),
                        },
                    ),
                    removed: front.removed.push(desktop_id),
                    failure: None,
                },
                EntryVerdict::Fail { source } => RemovalView {
                    failure: Some(IntegrationErrorView::FileSystem { path, source }),
                    ..front
                },
            }
        }
    }
}

pub open spec fn entry_before() -> spec_fn(
    (Seq<u8>, FileStateView),
    (Seq<u8>, FileStateView),
) -> bool {
    |a: (Seq<u8>, FileStateView), b: (Seq<u8>, FileStateView)| bytes_before(a.0, b.0)
}

/// The removal of the launcher's overrides from the autostart directory.
pub open spec fn suppression_removal(
    paths: PathsView,
    states: Seq<AncestorState>,
    user: u32,
    listing: AutostartListing,
) -> RemovalView {
    let directory = paths.autostart_dir();
    let root = user_root_failure(directory, "autostart integration directory"@, states, user);
    let none = RemovalView { actions: Seq::empty(), removed: Seq::empty(), failure: None };
    if root is Some {
        RemovalView { failure: root, ..none }
    } else {
        match listing {
            AutostartListing::Missing => none,
            AutostartListing::Failed(source) => RemovalView {
                failure: Some(
                    IntegrationErrorView::FileSystem { path: directory, source: source@ },
                ),
                ..none
            },
            AutostartListing::Entries(entries) => removal(
                directory,
                stable_sorted(views(entries@), entry_before()),
            ),
        }
    }
}

proof fn lemma_removal_failed(
    directory: Seq<u8>,
    entries: Seq<(Seq<u8>, FileStateView)>,
    k: int,
)
    requires
        0 <= k <= entries.len(),
        removal(directory, entries.take(k)).failure is Some,
    ensures
        removal(directory, entries) == removal(directory, entries.take(k)),
    decreases entries.len(),
{
    if k < entries.len() {
        assert(entries.drop_last().take(k) =~= entries.take(k));
        lemma_removal_failed(directory, entries.drop_last(), k);
    } else {
        assert(entries.take(k) =~= entries);
    }
}

fn is_entry_before(a: &AutostartEntry, b: &AutostartEntry) -> (before: bool)
    ensures
        before == entry_before()(a@, b@),
{
    are_bytes_before(a.name.bytes.as_slice(), b.name.bytes.as_slice())
}

fn sort_entries(entries: Vec<AutostartEntry>) -> (out: Vec<AutostartEntry>)
    ensures
        views(out@) == stable_sorted(views(entries@), entry_before()),
{
    let ghost before = |a: AutostartEntry, b: AutostartEntry| entry_before()(a@, b@);
    proof {
        crate::order::lemma_stable_sorted_map(
            entries@,
            |a: AutostartEntry| a@,
            before,
            entry_before(),
        );
    }
    stable_sort(entries, is_entry_before, Ghost(before))
}

/// The ID of the application whose override an entry is, or the message with
/// which it could not be read.
fn judge_entry(entry: &AutostartEntry) -> (out: Result<Option<String>, String>)
    ensures
        match entry_verdict(entry@) {
            EntryVerdict::Leave => out == Ok::<Option<String>, String>(None),
            EntryVerdict::Remove { desktop_id } => out matches Ok(Some(id)) && id@ == desktop_id,
            EntryVerdict::Fail { source } => out matches Err(message) && message@ == source,
        },
{
    let desktop_id = match entry.name.to_text() {
        None => {
            return Ok(None);
        },
        Some(text) => text,
    };
    match validate_desktop_id(desktop_id.as_str()) {
        Ok(_) => {},
        Err(_) => {
            return Ok(None);
        },
    }
    match &entry.state {
        FileState::Missing | FileState::Symlink | FileState::NotFile => Ok(None),
        FileState::Unreadable(source) => Err(source.clone()),
        FileState::Failed(source) => Err(source.clone()),
        FileState::Text(text) => {
            if same_text(
                text.as_str(),
                owned_autostart_contents(desktop_id.as_str()).as_str(),
            ) {
                Ok(Some(desktop_id))
            } else {
                Ok(None)
            }
        },
    }
}

fn plan_removal(directory: &UnixPath, entries: &Vec<AutostartEntry>) -> (out: SuppressionRemoval)
    ensures
        out@ == removal(directory@, views(entries@)),
{
    broadcast use group_views;

    let ghost all = views(entries@);
    let mut actions: Vec<StartupAction> = Vec::new();
    let mut removed: Vec<String> = Vec::new();
    let mut i: usize = 0;
    assert(all.take(0) =~= Seq::empty());
    while i < entries.len()
        invariant
            i <= entries@.len(),
            all == views(entries@),
            removal(directory@, all.take(i as int)).failure is None,
            removal(directory@, all.take(i as int)).actions == views(actions@),
            removal(directory@, all.take(i as int)).removed == views(removed@),
        decreases entries.len() - i,
    {
        proof {
            assert(all.take(i + 1).drop_last() =~= all.take(i as int));
            assert(all.take(i + 1).last() == entries@[i as int]@);
        }
        match judge_entry(&entries[i]) {
            Ok(None) => {},
            Ok(Some(desktop_id)) => {
                let ghost before = views(actions@);
                let ghost ids = views(removed@);
                let path = directory.join_path(&entries[i].name);
                let contents = owned_autostart_contents(desktop_id.as_str());
                let action = StartupAction::Remove { path, owned: OwnedFile::Exactly(contents) };
                let ghost shown = action@;
                actions.push(action);
                assert(views(actions@) == before.push(shown));
                removed.push(desktop_id);
                assert(views(removed@) == ids.push(desktop_id@));
            },
            Err(source) => {
                proof {
                    lemma_removal_failed(directory@, all, i + 1);
                }
                let path = directory.join_path(&entries[i].name);
                return SuppressionRemoval {
                    actions,
                    removed,
                    failure: Some(IntegrationError::FileSystem { path, source }),
                };
            },
        }
        i += 1;
    }
    assert(all.take(all.len() as int) =~= all);
    SuppressionRemoval { actions, removed, failure: None }
}

impl StartupManager {
    /// Plan to remove the launcher's overrides from the autostart directory.
    /// The states are those of that directory and of the directories above.
    pub fn remove_owned_suppressions(
        &self,
        states: &Vec<AncestorState>,
        user: u32,
        listing: AutostartListing,
    ) -> (out: SuppressionRemoval)
        ensures
            out@ == suppression_removal(self@.paths, states@, user, listing),
    {
        broadcast use group_views;

        let directory = self.paths.autostart_dir();
        let actions: Vec<StartupAction> = Vec::new();
        let removed: Vec<String> = Vec::new();
        assert(views(actions@) =~= Seq::empty());
        assert(views(removed@) =~= Seq::empty());
        match validate_user_root(&directory, "autostart integration directory", states, user) {
            Ok(_) => {},
            Err(e) => {
                return SuppressionRemoval { actions, removed, failure: Some(e) };
            },
        }
        match listing {
            AutostartListing::Missing => SuppressionRemoval { actions, removed, failure: None },
            AutostartListing::Failed(source) => SuppressionRemoval {
                actions,
                removed,
                failure: Some(IntegrationError::FileSystem { path: directory, source }),
            },
            AutostartListing::Entries(entries) => {
                let entries = sort_entries(entries);
                plan_removal(&directory, &entries)
            },
        }
    }
}

} // verus!
