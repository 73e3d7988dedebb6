//! Which paths have to be looked at for executables.
use vstd::prelude::*;

use super::desktop_entry::{resolved, DesktopEntryView};
use super::exec_parser::{exec_command, parse_exec};
use super::resolver::{candidate_paths, first_executable, ExecutableResolver};
use super::scanner::{
    application, file_entry, keep_nonblank, nonblank, read_entry, DiscoveryOptions,
    DiscoverySnapshot, OptionsView,
};

use crate::path::{copy_paths, UnixPath};
use crate::text::{group_views, views};

verus! {

/// The program that an entry launches, where its command is a valid one.
pub open spec fn launched_program(options: OptionsView, file: Seq<u8>, entry: DesktopEntryView) -> Option<
    Seq<char>,
> {
    let name = nonblank(resolved(entry.names, options.locale));
    if name is Some && entry.command is Some {
        match exec_command(entry.command->0, name->0, file) {
            Ok(parsed) => Some(parsed.executable),
            Err(_) => None,
        }
    } else {
        None
    }
}

pub open spec fn optional_candidates(options: OptionsView, program: Option<Seq<char>>) -> Seq<
    Seq<u8>,
> {
    match program {
        Some(program) => candidate_paths(options.executable_path, program),
        None => Seq::empty(),
    }
}

/// The paths at which the programs of an entry may stand.
pub open spec fn probes(options: OptionsView, file: Seq<u8>, entry: DesktopEntryView) -> Seq<
    Seq<u8>,
> {
    optional_candidates(options, entry.try_exec) + optional_candidates(
        options,
        launched_program(options, file, entry),
    )
}

/// The paths to look at for executables before the application of a desktop
/// file can be discovered: all those at which its programs may stand.
pub fn probe_paths(options: &DiscoveryOptions, snapshot: &DiscoverySnapshot, file: &UnixPath) -> (out:
    Vec<UnixPath>)
    ensures
        views(out@) == match file_entry(snapshot.files@, file@) {
            Ok(entry) => probes(options@, file@, entry),
            Err(_) => Seq::empty(),
        },
{
    broadcast use group_views;

    let mut out: Vec<UnixPath> = Vec::new();
    assert(views(out@) =~= Seq::empty());
    let entry = match read_entry(snapshot, file) {
        Ok(entry) => entry,
        Err(_) => {
            return out;
        },
    };
    let resolver = ExecutableResolver::new(copy_paths(&options.executable_path));
    match &entry.try_exec {
        Some(program) => {
            let mut more = resolver.candidates(program.as_str());
            out.append(&mut more);
        },
        None => {},
    }
    assert(views(out@) =~= optional_candidates(options@, entry@.try_exec));
    let ghost first = views(out@);
    let name = keep_nonblank(entry.names.resolve(&options.locale));
    match (&name, &entry.command) {
        (Some(name), Some(command)) => {
            match parse_exec(command.as_str(), name.as_str(), file) {
                Ok(parsed) => {
                    let mut more = resolver.candidates(parsed.executable.as_str());
                    out.append(&mut more);
                },
                Err(_) => {},
            }
        },
        _ => {},
    }
    assert(views(out@) =~= first + optional_candidates(
        options@,
        launched_program(options@, file@, entry@),
    ));
    out
}

proof fn lemma_first_executable_depends(
    candidates: Seq<Seq<u8>>,
    one: Seq<Seq<u8>>,
    other: Seq<Seq<u8>>,
)
    requires
        forall|k: int|
            0 <= k < candidates.len() ==> one.contains(#[trigger] candidates[k]) == other.contains(
                candidates[k],
            ),
    ensures
        first_executable(candidates, one) == first_executable(candidates, other),
    decreases candidates.len(),
{
    if candidates.len() > 0 {
        assert(one.contains(candidates[0]) == other.contains(candidates[0]));
        assert forall|k: int| 0 <= k < candidates.drop_first().len() implies one.contains(
            #[trigger] candidates.drop_first()[k],
        ) == other.contains(candidates.drop_first()[k]) by {
            assert(candidates.drop_first()[k] == candidates[k + 1]);
        }
        lemma_first_executable_depends(candidates.drop_first(), one, other);
    }
}

/// What becomes of a desktop entry depends on no executables but those at its
/// probed paths.
pub proof fn discovery_depends_on_probes(
    options: OptionsView,
    one: Seq<Seq<u8>>,
    other: Seq<Seq<u8>>,
    id: Seq<char>,
    file: Seq<u8>,
    priority: int,
    entry: DesktopEntryView,
)
    requires
        forall|path: Seq<u8>|
            probes(options, file, entry).contains(path) ==> #[trigger] one.contains(path)
                == other.contains(path),
    ensures
        application(options, one, id, file, priority, entry) == application(
            options,
            other,
            id,
            file,
            priority,
            entry,
        ),
{
    let wanted = optional_candidates(options, entry.try_exec);
    let launched = optional_candidates(options, launched_program(options, file, entry));
    let all = probes(options, file, entry);
    assert forall|k: int| 0 <= k < wanted.len() implies one.contains(#[trigger] wanted[k])
        == other.contains(wanted[k]) by {
        assert(all[k] == wanted[k]);
        assert(all.contains(wanted[k]));
    }
    assert forall|k: int| 0 <= k < launched.len() implies one.contains(#[trigger] launched[k])
        == other.contains(launched[k]) by {
        assert(all[wanted.len() + k] == launched[k]);
        assert(all.contains(launched[k]));
    }
    lemma_first_executable_depends(wanted, one, other);
    lemma_first_executable_depends(launched, one, other);
}

} // verus!
