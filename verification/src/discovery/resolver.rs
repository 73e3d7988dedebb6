//! Finding the program that a command names.
use vstd::prelude::*;
use vstd::string::StringExecFns;

use crate::path::{child, lossy_text, UnixPath};
use crate::text::{find_char, find_in, group_views, views};
use vstd::string::StrSliceExecFns;
use vstd::utf8::encode_utf8;

verus! {

/// Failure to turn a desktop-entry executable name into a usable file.
#[derive(Debug, PartialEq, Eq)]
pub enum ExecutableResolutionError {
    /// The executable value was empty.
    Empty,
    /// The executable cannot be represented by a process argument.
    ContainsNul,
    /// The path exists but does not name a regular executable file.
    NotExecutable { path: UnixPath },
    /// No executable with this name was found on the configured search path.
    NotFound { executable: String },
}

/// A resolution failure by its contents.
pub enum ResolutionErrorView {
    Empty,
    ContainsNul,
    NotExecutable { path: Seq<u8> },
    NotFound { executable: Seq<char> },
}

impl View for ExecutableResolutionError {
    type V = ResolutionErrorView;

    open spec fn view(&self) -> ResolutionErrorView {
        match self {
            ExecutableResolutionError::Empty => ResolutionErrorView::Empty,
            ExecutableResolutionError::ContainsNul => ResolutionErrorView::ContainsNul,
            ExecutableResolutionError::NotExecutable { path } => {
                ResolutionErrorView::NotExecutable { path: path@ }
            },
            ExecutableResolutionError::NotFound { executable } => ResolutionErrorView::NotFound {
                executable: executable@,
            },
        }
    }
}

/// The message of a resolution failure.
pub open spec fn resolution_error_text(e: ResolutionErrorView) -> Seq<char> {
    match e {
        ResolutionErrorView::Empty => "executable is empty"@,
        ResolutionErrorView::ContainsNul => "executable contains a NUL byte"@,
        ResolutionErrorView::NotExecutable { path } => lossy_text(path)
            + " is not a regular executable file"@,
        ResolutionErrorView::NotFound { executable } => "executable `"@ + executable
            + "` was not found on the configured PATH"@,
    }
}

impl ExecutableResolutionError {
    /// The message shown to the user.
    pub fn message(&self) -> (out: String)
        ensures
            out@ == resolution_error_text(self@),
    {
        match self {
            ExecutableResolutionError::Empty => "executable is empty".to_owned(),
            ExecutableResolutionError::ContainsNul => "executable contains a NUL byte".to_owned(),
            ExecutableResolutionError::NotExecutable { path } => {
                path.display().concat(" is not a regular executable file")
            },
            ExecutableResolutionError::NotFound { executable } => {
                "executable `".to_owned().concat(executable.as_str()).concat(
                    "` was not found on the configured PATH",
                )
            },
        }
    }
}

/// Executable lookup with an injectable `PATH`.
#[derive(Debug)]
pub struct ExecutableResolver {
    pub search_path: Vec<UnixPath>,
}

/// The paths at which a program may stand, in the order of preference.
pub open spec fn candidate_paths(search_path: Seq<Seq<u8>>, executable: Seq<char>) -> Seq<Seq<u8>> {
    if find_char(executable, '/') < executable.len() {
        seq![encode_utf8(executable)]
    } else {
        search_path.map_values(|directory: Seq<u8>| child(directory, executable))
    }
}

/// The first candidate that is an executable file.
pub open spec fn first_executable(candidates: Seq<Seq<u8>>, executables: Seq<Seq<u8>>) -> Option<
    Seq<u8>,
>
    decreases candidates.len(),
{
    if candidates.len() == 0 {
        None
    } else if executables.contains(candidates[0]) {
        Some(candidates[0])
    } else {
        first_executable(candidates.drop_first(), executables)
    }
}

/// The program that a name stands for: a name with a slash directly, any
/// other by the search path.
pub open spec fn resolution(
    search_path: Seq<Seq<u8>>,
    executables: Seq<Seq<u8>>,
    executable: Seq<char>,
) -> Result<Seq<u8>, ResolutionErrorView> {
    if executable.len() == 0 {
        Err(ResolutionErrorView::Empty)
    } else if find_char(executable, '\0') < executable.len() {
        Err(ResolutionErrorView::ContainsNul)
    } else {
        match first_executable(candidate_paths(search_path, executable), executables) {
            Some(path) => Ok(path),
            None => if find_char(executable, '/') < executable.len() {
                Err(ResolutionErrorView::NotExecutable { path: encode_utf8(executable) })
            } else {
                Err(ResolutionErrorView::NotFound { executable })
            },
        }
    }
}

/// Whether a path is among some.
pub fn holds_path(paths: &Vec<UnixPath>, path: &UnixPath) -> (out: bool)
    ensures
        out == views(paths@).contains(path@),
{
    let ghost all = views(paths@);
    let mut i: usize = 0;
    while i < paths.len()
        invariant
            i <= paths@.len(),
            all == views(paths@),
            forall|k: int| 0 <= k < i ==> #[trigger] all[k] != path@,
        decreases paths.len() - i,
    {
        assert(all[i as int] == paths@[i as int]@);
        if paths[i].same(path) {
            assert(all[i as int] == path@);
            return true;
        }
        i += 1;
    }
    false
}

impl ExecutableResolver {
    /// Construct a resolver from explicit search directories.
    pub fn new(search_path: Vec<UnixPath>) -> (out: Self)
        ensures
            out.search_path == search_path,
    {
        ExecutableResolver { search_path }
    }

    /// Return the configured search path.
    pub fn search_path(&self) -> (out: &Vec<UnixPath>)
        ensures
            *out == self.search_path,
    {
        &self.search_path
    }

    /// The paths that have to be looked at to resolve a name.
    pub fn candidates(&self, executable: &str) -> (out: Vec<UnixPath>)
        ensures
            views(out@) == candidate_paths(views(self.search_path@), executable@),
    {
        broadcast use group_views;

        let ghost directories = views(self.search_path@);
        let ghost join = |directory: Seq<u8>| child(directory, executable@);
        let mut out: Vec<UnixPath> = Vec::new();
        if find_in(executable, '/') < executable.unicode_len() {
            out.push(UnixPath::from_text(executable));
            assert(views(out@) =~= seq![encode_utf8(executable@)]);
            return out;
        }
        let mut i: usize = 0;
        while i < self.search_path.len()
            invariant
                i <= self.search_path@.len(),
                directories == views(self.search_path@),
                join == (|directory: Seq<u8>| child(directory, executable@)),
                views(out@) == directories.take(i as int).map_values(join),
            decreases self.search_path.len() - i,
        {
            proof {
                assert(directories[i as int] == self.search_path@[i as int]@);
                directories.lemma_map_take_succ(join, i as int);
            }
            out.push(self.search_path[i].join(executable));
            i += 1;
        }
        assert(directories.take(directories.len() as int) =~= directories);
        out
    }

    /// Resolve `executable` without invoking `which` or a shell.
    ///
    /// Values containing `/` are checked directly. Bare names are searched in
    /// configured `PATH` order. `executables` are the paths at which a regular
    /// file with an execute bit stands, symlinks followed; the returned path
    /// is not canonicalized.
    pub fn resolve(&self, executable: &str, executables: &Vec<UnixPath>) -> (out: Result<
        UnixPath,
        ExecutableResolutionError,
    >)
        ensures
            match out {
                Ok(path) => resolution(
                    views(self.search_path@),
                    views(executables@),
                    executable@,
                ) == Ok::<Seq<u8>, ResolutionErrorView>(path@),
                Err(e) => resolution(
                    views(self.search_path@),
                    views(executables@),
                    executable@,
                ) == Err::<Seq<u8>, ResolutionErrorView>(e@),
            },
    {
        if executable.is_empty() {
            return Err(ExecutableResolutionError::Empty);
        }
        let len: usize = executable.unicode_len();
        if find_in(executable, '\0') < len {
            return Err(ExecutableResolutionError::ContainsNul);
        }
        let candidates = self.candidates(executable);
        let ghost all = views(candidates@);
        let ghost known = views(executables@);
        let mut i: usize = 0;
        assert(all.skip(0) =~= all);
        while i < candidates.len()
            invariant
                i <= candidates@.len(),
                all == views(candidates@),
                all == candidate_paths(views(self.search_path@), executable@),
                known == views(executables@),
                executable@.len() > 0,
                find_char(executable@, '\0') >= executable@.len(),
                first_executable(all, known) == first_executable(all.skip(i as int), known),
            decreases candidates.len() - i,
        {
            assert(all.skip(i as int)[0] == candidates@[i as int]@);
            assert(all.skip(i as int).drop_first() =~= all.skip(i + 1));
            if holds_path(executables, &candidates[i]) {
                return Ok(candidates[i].clone());
            }
            i += 1;
        }
        if find_in(executable, '/') < len {
            Err(ExecutableResolutionError::NotExecutable { path: UnixPath::from_text(executable) })
        } else {
            Err(ExecutableResolutionError::NotFound { executable: executable.to_owned() })
        }
    }
}

impl Default for ExecutableResolver {
    fn default() -> (out: Self)
        ensures
            out.search_path@.len() == 0,
    {
        ExecutableResolver { search_path: Vec::new() }
    }
}

/// The candidate at `k` is the first that is an executable file.
pub open spec fn is_choice(candidates: Seq<Seq<u8>>, executables: Seq<Seq<u8>>, k: int) -> bool {
    &&& 0 <= k < candidates.len()
    &&& executables.contains(candidates[k])
    &&& forall|m: int| 0 <= m < k ==> !executables.contains(#[trigger] candidates[m])
}

/// A resolved program is the first candidate that is an executable file.
pub proof fn resolution_is_first_executable(
    search_path: Seq<Seq<u8>>,
    executables: Seq<Seq<u8>>,
    executable: Seq<char>,
)
    requires
        resolution(search_path, executables, executable) is Ok,
    ensures
        exists|k: int|
            #[trigger] is_choice(candidate_paths(search_path, executable), executables, k)
                && candidate_paths(search_path, executable)[k] == resolution(
                search_path,
                executables,
                executable,
            )->Ok_0,
{
    let candidates = candidate_paths(search_path, executable);
    let k = lemma_first_executable(candidates, executables);
    assert(is_choice(candidates, executables, k));
}

proof fn lemma_first_executable(candidates: Seq<Seq<u8>>, executables: Seq<Seq<u8>>) -> (k: int)
    requires
        first_executable(candidates, executables) is Some,
    ensures
        0 <= k < candidates.len(),
        candidates[k] == first_executable(candidates, executables)->0,
        executables.contains(candidates[k]),
        forall|m: int| 0 <= m < k ==> !executables.contains(#[trigger] candidates[m]),
    decreases candidates.len(),
{
    if executables.contains(candidates[0]) {
        0
    } else {
        let rest = candidates.drop_first();
        let k = lemma_first_executable(rest, executables);
        assert forall|m: int| 0 <= m < k + 1 implies !executables.contains(
            #[trigger] candidates[m],
        ) by {
            if m > 0 {
                assert(rest[m - 1] == candidates[m]);
            }
        }
        k + 1
    }
}

} // verus!
