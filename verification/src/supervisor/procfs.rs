//! What `/proc` tells about processes and threads.
use vstd::prelude::*;
use vstd::string::StrSliceExecFns;
use vstd::string::StringExecFns;

use super::types::{
    supervisor_failure, SupervisorError, SupervisorErrorView, MAX_PROCESSES_PER_TREE,
};
use crate::order::{insert_ascending, insert_number, sorted_set, sorted_unique};
use crate::path::{
    child, path_text, FileRead, FileReadView, Listing, ListingEntry, ListingEntryView, ListingView,
    UnixPath,
};
use crate::text::{
    chars_of, decimal, decimal_text, lines, lines_of, parse_u32, parse_u64, starts_with, text_of,
    trim, trim_text, unsigned_value, views, without_prefix, words, words_of,
};

verus! {

/// A process that cannot be mistaken for a later one with the same number.
#[derive(Clone, Copy, Debug, PartialEq, Eq, Structural)]
pub struct ProcessIdentity {
    pub pid: u32,
    pub start_time_ticks: u64,
}

/// Where the last `) ` of a text begins, looked for up to a position.
pub open spec fn command_end(s: Seq<char>, upto: int) -> Option<int>
    decreases upto + 1,
{
    if upto < 0 {
        None
    } else if upto + 1 < s.len() && s[upto] == ')' && s[upto + 1] == ' ' {
        Some(upto)
    } else {
        command_end(s, upto - 1)
    }
}

/// A number among some words.
pub open spec fn number_at(fields: Seq<Seq<char>>, at: int, limit: nat) -> Option<nat> {
    if 0 <= at < fields.len() && unsigned_value(fields[at]) is Some && unsigned_value(fields[at])->0
        <= limit {
        unsigned_value(fields[at])
    } else {
        None
    }
}

/// The identity and the parent that a `stat` file tells: the parent is the
/// second field after the command, the start time the twentieth. The command
/// may hold anything, so it ends with the last `) `.
pub open spec fn stat_identity(pid: u32, stat: Seq<char>) -> Result<
    (ProcessIdentity, u32),
    Seq<char>,
> {
    match command_end(stat, stat.len() - 2) {
        None => Err("process stat has no command terminator"@),
        Some(end) => {
            let fields = words(stat.skip(end + 2));
            let parent = number_at(fields, 1, u32::MAX as nat);
            let start = number_at(fields, 19, u64::MAX as nat);
            if parent is None {
                Err("process stat has no valid PPID"@)
            } else if start is None {
                Err("process stat has no valid start time"@)
            } else {
                Ok(
                    (
                        ProcessIdentity { pid, start_time_ticks: start->0 as u64 },
                        parent->0 as u32,
                    ),
                )
            }
        },
    }
}

fn find_command_end(chars: &Vec<char>) -> (out: Option<usize>)
    ensures
        match command_end(chars@, chars@.len() - 2) {
            Some(end) => out is Some && out->0 == end && end + 2 <= chars@.len(),
            None => out is None,
        },
{
    if chars.len() < 2 {
        return None;
    }
    let mut upto: usize = chars.len() - 1;
    while upto > 0
        invariant
            upto <= chars@.len() - 1,
            2 <= chars@.len(),
            command_end(chars@, chars@.len() - 2) == command_end(chars@, upto - 1),
        decreases upto,
    {
        upto -= 1;
        if chars[upto] == ')' && chars[upto + 1] == ' ' {
            return Some(upto);
        }
    }
    None
}

/// The identity and the parent that a `stat` file tells.
pub fn parse_proc_stat(pid: u32, stat: &str) -> (out: Result<(ProcessIdentity, u32), String>)
    ensures
        match stat_identity(pid, stat@) {
            Ok(found) => out == Ok::<(ProcessIdentity, u32), String>(found),
            Err(message) => out matches Err(text) && text@ == message,
        },
{
    let chars = chars_of(stat);
    let end: usize = match find_command_end(&chars) {
        None => {
            return Err("process stat has no command terminator".to_owned());
        },
        Some(end) => end,
    };
    let n: usize = chars.len();
    let suffix = text_of(chars.as_slice(), end + 2, n);
    assert(suffix@ =~= stat@.skip(end + 2));
    let fields = words_of(suffix.as_str());
    let ghost all = views(fields@);
    assert(all.len() == fields@.len());
    let parent: u32 = match field_u32(&fields, 1) {
        None => {
            return Err("process stat has no valid PPID".to_owned());
        },
        Some(parent) => parent,
    };
    let start: u64 = match field_u64(&fields, 19) {
        None => {
            return Err("process stat has no valid start time".to_owned());
        },
        Some(start) => start,
    };
    Ok((ProcessIdentity { pid, start_time_ticks: start }, parent))
}

fn field_u32(fields: &Vec<String>, at: usize) -> (out: Option<u32>)
    ensures
        match number_at(views(fields@), at as int, u32::MAX as nat) {
            Some(n) => out is Some && out->0 == n,
            None => out is None,
        },
{
    if at < fields.len() {
        parse_u32(fields[at].as_str())
    } else {
        None
    }
}

fn field_u64(fields: &Vec<String>, at: usize) -> (out: Option<u64>)
    ensures
        match number_at(views(fields@), at as int, u64::MAX as nat) {
            Some(n) => out is Some && out->0 == n,
            None => out is None,
        },
{
    if at < fields.len() {
        parse_u64(fields[at].as_str())
    } else {
        None
    }
}

/// What was found of a process. A failure comes with its message.
#[derive(Debug, PartialEq, Eq)]
pub enum IdentityOutcome {
    Found { identity: ProcessIdentity, parent: u32 },
    /// There is no such process.
    Missing,
    Failed(String),
}

/// An identity by its contents.
pub enum IdentityView {
    Found { identity: ProcessIdentity, parent: u32 },
    Missing,
    Failed(Seq<char>),
}

impl View for IdentityOutcome {
    type V = IdentityView;

    open spec fn view(&self) -> IdentityView {
        match self {
            IdentityOutcome::Found { identity, parent } => IdentityView::Found {
                identity: *identity,
                parent: *parent,
            },
            IdentityOutcome::Missing => IdentityView::Missing,
            IdentityOutcome::Failed(message) => IdentityView::Failed(message@),
        }
    }
}

impl IdentityView {
    /// It is the given process.
    pub open spec fn is(self, process: ProcessIdentity) -> bool {
        self matches IdentityView::Found { identity, .. } && identity == process
    }
}

impl IdentityOutcome {
    /// Whether it is the given process.
    pub fn is_process(&self, process: ProcessIdentity) -> (out: bool)
        ensures
            out == self@.is(process),
    {
        match self {
            IdentityOutcome::Found { identity, .. } => *identity == process,
            _ => false,
        }
    }
}

/// What the `stat` file of a process tells of it.
pub open spec fn identity_from(pid: u32, stat: FileReadView) -> IdentityView {
    match stat {
        FileReadView::Missing => IdentityView::Missing,
        FileReadView::Failed(message) => IdentityView::Failed(message),
        FileReadView::Contents(text) => match stat_identity(pid, text) {
            Ok(found) => IdentityView::Found { identity: found.0, parent: found.1 },
            Err(message) => IdentityView::Failed(message),
        },
    }
}

/// What the `stat` file of a process tells of it.
pub fn read_identity(pid: u32, stat: &FileRead) -> (out: IdentityOutcome)
    ensures
        out@ == identity_from(pid, stat@),
{
    match stat {
        FileRead::Missing => IdentityOutcome::Missing,
        FileRead::Failed(message) => IdentityOutcome::Failed(message.clone()),
        FileRead::Contents(text) => match parse_proc_stat(pid, text.as_str()) {
            Ok((identity, parent)) => IdentityOutcome::Found { identity, parent },
            Err(message) => IdentityOutcome::Failed(message),
        },
    }
}

/// When a process started, where it could be found out.
pub fn start_time(pid: u32, stat: &FileRead) -> (out: Option<u64>)
    ensures
        out == match identity_from(pid, stat@) {
            IdentityView::Found { identity, .. } => Some(identity.start_time_ticks),
            _ => None,
        },
{
    match read_identity(pid, stat) {
        IdentityOutcome::Found { identity, .. } => Some(identity.start_time_ticks),
        _ => None,
    }
}

pub open spec fn too_many_threads() -> Seq<char> {
    "process has more than "@ + decimal(MAX_PROCESSES_PER_TREE as nat) + " threads"@
}

pub open spec fn too_many_children() -> Seq<char> {
    "process has more than "@ + decimal(MAX_PROCESSES_PER_TREE as nat) + " direct children"@
}

/// The thread number that a name in the task directory is.
pub open spec fn task_number(name: Seq<u8>) -> Option<u32> {
    match path_text(name) {
        Some(text) => match unsigned_value(text) {
            Some(n) => if n <= u32::MAX {
                Some(n as u32)
            } else {
                None
            },
            None => None,
        },
        None => None,
    }
}

/// The thread numbers in a listing of the task directory, in its order.
pub open spec fn listed_tasks(entries: Seq<ListingEntryView>) -> Result<Seq<u32>, Seq<char>>
    decreases entries.len(),
{
    if entries.len() == 0 {
        Ok(Seq::empty())
    } else {
        match listed_tasks(entries.drop_last()) {
            Err(message) => Err(message),
            Ok(front) => match entries.last() {
                ListingEntryView::Failed(message) => Err(message),
                ListingEntryView::Name(name) => match task_number(name) {
                    None => Ok(front),
                    Some(tid) => if front.len() >= MAX_PROCESSES_PER_TREE {
                        Err(too_many_threads())
                    } else {
                        Ok(front.push(tid))
                    },
                },
            },
        }
    }
}

/// The threads of a process, in ascending order. Where the process is gone
/// there are none.
pub open spec fn tasks_of(process: ProcessIdentity, seen: IdentityView, listing: ListingView) -> Result<
    Seq<u32>,
    Seq<char>,
> {
    if seen is Failed {
        Err(seen->Failed_0)
    } else if !seen.is(process) {
        Ok(Seq::empty())
    } else {
        match listing {
            ListingView::Missing => Ok(Seq::empty()),
            ListingView::Failed(message) => Err(message),
            ListingView::Entries(entries) => match listed_tasks(entries) {
                Err(message) => Err(message),
                Ok(tids) => Ok(sorted_set(tids)),
            },
        }
    }
}

/// Numbers or a message, by contents.
pub open spec fn numbers_outcome(out: Result<Vec<u32>, String>) -> Result<Seq<u32>, Seq<char>> {
    match out {
        Ok(numbers) => Ok(numbers@),
        Err(message) => Err(message@),
    }
}

proof fn lemma_listed_error(entries: Seq<ListingEntryView>, k: int)
    requires
        0 <= k <= entries.len(),
        listed_tasks(entries.take(k)) is Err,
    ensures
        listed_tasks(entries) == listed_tasks(entries.take(k)),
    decreases entries.len(),
{
    if k < entries.len() {
        assert(entries.drop_last().take(k) =~= entries.take(k));
        lemma_listed_error(entries.drop_last(), k);
    } else {
        assert(entries.take(k) =~= entries);
    }
}

fn read_task_number(name: &UnixPath) -> (out: Option<u32>)
    ensures
        out == task_number(name@),
{
    match name.to_text() {
        Some(text) => parse_u32(text.as_str()),
        None => None,
    }
}

fn limit_text(what: &str) -> (out: String)
    ensures
        out@ == "process has more than "@ + decimal(MAX_PROCESSES_PER_TREE as nat) + what@,
{
    "process has more than ".to_owned().concat(
        decimal_text(MAX_PROCESSES_PER_TREE as u64).as_str(),
    ).concat(what)
}

/// The threads of a process, from what was found of it and from its task
/// directory.
pub fn task_ids(process: ProcessIdentity, seen: &IdentityOutcome, listing: &Listing) -> (out: Result<
    Vec<u32>,
    String,
>)
    ensures
        numbers_outcome(out) == tasks_of(process, seen@, listing@),
{
    match seen {
        IdentityOutcome::Failed(message) => {
            return Err(message.clone());
        },
        _ => {},
    }
    if !seen.is_process(process) {
        return Ok(Vec::new());
    }
    let entries = match listing {
        Listing::Missing => {
            return Ok(Vec::new());
        },
        Listing::Failed(message) => {
            return Err(message.clone());
        },
        Listing::Entries(entries) => entries,
    };
    let ghost all = views(entries@);
    let mut tids: Vec<u32> = Vec::new();
    let mut i: usize = 0;
    assert(all.take(0) =~= Seq::empty());
    while i < entries.len()
        invariant
            i <= entries@.len(),
            all == views(entries@),
            tids@.len() <= MAX_PROCESSES_PER_TREE,
            listed_tasks(all.take(i as int)) == Ok::<Seq<u32>, Seq<char>>(tids@),
            tasks_of(process, seen@, listing@) == match listed_tasks(all) {
                Err(message) => Err::<Seq<u32>, Seq<char>>(message),
                Ok(found) => Ok(sorted_set(found)),
            },
        decreases entries.len() - i,
    {
        proof {
            assert(all.take(i + 1).drop_last() =~= all.take(i as int));
            assert(all.take(i + 1).last() == entries@[i as int]@);
            if listed_tasks(all.take(i + 1)) is Err {
                lemma_listed_error(all, i + 1);
            }
        }
        match &entries[i] {
            ListingEntry::Failed(message) => {
                return Err(message.clone());
            },
            ListingEntry::Name(name) => {
                match read_task_number(name) {
                    None => {},
                    Some(tid) => {
                        if tids.len() >= MAX_PROCESSES_PER_TREE {
                            return Err(limit_text(" threads"));
                        }
                        tids.push(tid);
                    },
                }
            },
        }
        i += 1;
    }
    assert(all.take(all.len() as int) =~= all);
    Ok(sorted_unique(&tids))
}

/// The number that a word is.
pub open spec fn word_number(word: Seq<char>) -> Option<u32> {
    match unsigned_value(word) {
        Some(n) => if n <= u32::MAX {
            Some(n as u32)
        } else {
            None
        },
        None => None,
    }
}

/// Some numbers with those among some words, as long as there are not too
/// many.
pub open spec fn with_children(known: Seq<u32>, names: Seq<Seq<char>>) -> Result<
    Seq<u32>,
    Seq<char>,
>
    decreases names.len(),
{
    if names.len() == 0 {
        Ok(known)
    } else {
        match with_children(known, names.drop_last()) {
            Err(message) => Err(message),
            Ok(front) => match word_number(names.last()) {
                None => Ok(front),
                Some(pid) => {
                    let more = insert_number(front, pid);
                    if more.len() > MAX_PROCESSES_PER_TREE {
                        Err(too_many_children())
                    } else {
                        Ok(more)
                    }
                },
            },
        }
    }
}

/// The children that the `children` files of a process's threads name, in
/// ascending order.
pub open spec fn children_named(files: Seq<FileReadView>) -> Result<Seq<u32>, Seq<char>>
    decreases files.len(),
{
    if files.len() == 0 {
        Ok(Seq::empty())
    } else {
        match children_named(files.drop_last()) {
            Err(message) => Err(message),
            Ok(front) => match files.last() {
                FileReadView::Missing => Ok(front),
                FileReadView::Failed(message) => Err(message),
                FileReadView::Contents(text) => with_children(front, words(text)),
            },
        }
    }
}

proof fn lemma_with_children_error(known: Seq<u32>, names: Seq<Seq<char>>, k: int)
    requires
        0 <= k <= names.len(),
        with_children(known, names.take(k)) is Err,
    ensures
        with_children(known, names) == with_children(known, names.take(k)),
    decreases names.len(),
{
    if k < names.len() {
        assert(names.drop_last().take(k) =~= names.take(k));
        lemma_with_children_error(known, names.drop_last(), k);
    } else {
        assert(names.take(k) =~= names);
    }
}

proof fn lemma_children_error(files: Seq<FileReadView>, k: int)
    requires
        0 <= k <= files.len(),
        children_named(files.take(k)) is Err,
    ensures
        children_named(files) == children_named(files.take(k)),
    decreases files.len(),
{
    if k < files.len() {
        assert(files.drop_last().take(k) =~= files.take(k));
        lemma_children_error(files.drop_last(), k);
    } else {
        assert(files.take(k) =~= files);
    }
}

fn add_children(known: &mut Vec<u32>, text: &str) -> (out: Result<(), String>)
    ensures
        match with_children(old(known)@, words(text@)) {
            Ok(all) => out is Ok && final(known)@ == all,
            Err(message) => out matches Err(found) && found@ == message,
        },
{
    let names = words_of(text);
    let ghost all = views(names@);
    let ghost start = known@;
    let mut i: usize = 0;
    assert(all.take(0) =~= Seq::empty());
    while i < names.len()
        invariant
            i <= names@.len(),
            all == views(names@),
            all == words(text@),
            start == old(known)@,
            with_children(start, all.take(i as int)) == Ok::<Seq<u32>, Seq<char>>(known@),
        decreases names.len() - i,
    {
        proof {
            assert(all.take(i + 1).drop_last() =~= all.take(i as int));
            assert(all.take(i + 1).last() == names@[i as int]@);
            if with_children(start, all.take(i + 1)) is Err {
                lemma_with_children_error(start, all, i + 1);
            }
        }
        match parse_u32(names[i].as_str()) {
            None => {},
            Some(pid) => {
                insert_ascending(known, pid);
                if known.len() > MAX_PROCESSES_PER_TREE {
                    return Err(limit_text(" direct children"));
                }
            },
        }
        i += 1;
    }
    assert(all.take(all.len() as int) =~= all);
    Ok(())
}

/// The children that the `children` files of a process's threads name.
pub fn child_pids(files: &Vec<FileRead>) -> (out: Result<Vec<u32>, String>)
    ensures
        numbers_outcome(out) == children_named(views(files@)),
{
    let ghost all = views(files@);
    let mut known: Vec<u32> = Vec::new();
    let mut i: usize = 0;
    assert(all.take(0) =~= Seq::empty());
    while i < files.len()
        invariant
            i <= files@.len(),
            all == views(files@),
            children_named(all.take(i as int)) == Ok::<Seq<u32>, Seq<char>>(known@),
        decreases files.len() - i,
    {
        proof {
            assert(all.take(i + 1).drop_last() =~= all.take(i as int));
            assert(all.take(i + 1).last() == files@[i as int]@);
            if children_named(all.take(i + 1)) is Err {
                lemma_children_error(all, i + 1);
            }
        }
        match &files[i] {
            FileRead::Missing => {},
            FileRead::Failed(message) => {
                return Err(message.clone());
            },
            FileRead::Contents(text) => {
                match add_children(&mut known, text.as_str()) {
                    Ok(_) => {},
                    Err(message) => {
                        return Err(message);
                    },
                }
            },
        }
        i += 1;
    }
    assert(all.take(all.len() as int) =~= all);
    Ok(known)
}

/// Processes that are children of the given one: it is their parent, and they
/// did not start before it.
pub open spec fn true_children(parent: ProcessIdentity, seen: Seq<IdentityView>) -> Result<
    Seq<ProcessIdentity>,
    Seq<char>,
>
    decreases seen.len(),
{
    if seen.len() == 0 {
        Ok(Seq::empty())
    } else {
        match true_children(parent, seen.drop_last()) {
            Err(message) => Err(message),
            Ok(front) => match seen.last() {
                IdentityView::Missing => Ok(front),
                IdentityView::Failed(message) => Err(message),
                IdentityView::Found { identity, parent: of } => if of == parent.pid
                    && identity.start_time_ticks >= parent.start_time_ticks {
                    Ok(front.push(identity))
                } else {
                    Ok(front)
                },
            },
        }
    }
}

/// The children of a process, once it was seen again after they were named.
pub open spec fn children_of(
    parent: ProcessIdentity,
    again: IdentityView,
    seen: Seq<IdentityView>,
) -> Result<Seq<ProcessIdentity>, Seq<char>> {
    if again is Failed {
        Err(again->Failed_0)
    } else if !again.is(parent) {
        Ok(Seq::empty())
    } else {
        true_children(parent, seen)
    }
}

proof fn lemma_true_children_error(parent: ProcessIdentity, seen: Seq<IdentityView>, k: int)
    requires
        0 <= k <= seen.len(),
        true_children(parent, seen.take(k)) is Err,
    ensures
        true_children(parent, seen) == true_children(parent, seen.take(k)),
    decreases seen.len(),
{
    if k < seen.len() {
        assert(seen.drop_last().take(k) =~= seen.take(k));
        lemma_true_children_error(parent, seen.drop_last(), k);
    } else {
        assert(seen.take(k) =~= seen);
    }
}

/// The children of a process: those of the named processes that truly are,
/// where the process itself is still there.
pub fn verified_children(
    parent: ProcessIdentity,
    again: &IdentityOutcome,
    seen: &Vec<IdentityOutcome>,
) -> (out: Result<Vec<ProcessIdentity>, String>)
    ensures
        match children_of(parent, again@, views(seen@)) {
            Ok(all) => out matches Ok(found) && found@ == all,
            Err(message) => out matches Err(text) && text@ == message,
        },
{
    match again {
        IdentityOutcome::Failed(message) => {
            return Err(message.clone());
        },
        _ => {},
    }
    if !again.is_process(parent) {
        return Ok(Vec::new());
    }
    let ghost all = views(seen@);
    let mut out: Vec<ProcessIdentity> = Vec::new();
    let mut i: usize = 0;
    assert(all.take(0) =~= Seq::empty());
    while i < seen.len()
        invariant
            i <= seen@.len(),
            all == views(seen@),
            again@.is(parent),
            true_children(parent, all.take(i as int)) == Ok::<Seq<ProcessIdentity>, Seq<char>>(
                out@,
            ),
        decreases seen.len() - i,
    {
        proof {
            assert(all.take(i + 1).drop_last() =~= all.take(i as int));
            assert(all.take(i + 1).last() == seen@[i as int]@);
            if true_children(parent, all.take(i + 1)) is Err {
                lemma_true_children_error(parent, all, i + 1);
            }
        }
        match &seen[i] {
            IdentityOutcome::Missing => {},
            IdentityOutcome::Failed(message) => {
                return Err(message.clone());
            },
            IdentityOutcome::Found { identity, parent: of } => {
                if *of == parent.pid && identity.start_time_ticks >= parent.start_time_ticks {
                    out.push(*identity);
                }
            },
        }
        i += 1;
    }
    assert(all.take(all.len() as int) =~= all);
    Ok(out)
}

/// The process that a line of a `status` file names as the thread's own.
pub open spec fn thread_group_line(line: Seq<char>) -> Option<u32> {
    if starts_with(line, "Tgid:"@) {
        word_number(trim(line.skip("Tgid:"@.len() as int)))
    } else {
        None
    }
}

/// The process that a `status` file names as the thread's own.
pub open spec fn thread_group(all: Seq<Seq<char>>) -> Option<u32>
    decreases all.len(),
{
    if all.len() == 0 {
        None
    } else if thread_group_line(all[0]) is Some {
        thread_group_line(all[0])
    } else {
        thread_group(all.drop_first())
    }
}

/// Whether a thread belongs to a process, from the thread's `status` file.
pub open spec fn belongs(pid: u32, status: FileReadView) -> Result<bool, Seq<char>> {
    match status {
        FileReadView::Missing => Ok(false),
        FileReadView::Failed(message) => Err(message),
        FileReadView::Contents(text) => Ok(thread_group(lines(text)) == Some(pid)),
    }
}

fn read_thread_group(line: &str) -> (out: Option<u32>)
    ensures
        out == thread_group_line(line@),
{
    match without_prefix(line, "Tgid:") {
        Some(rest) => parse_u32(trim_text(rest)),
        None => None,
    }
}

/// Whether a thread belongs to a process, from the thread's `status` file.
pub fn task_belongs_to(pid: u32, status: &FileRead) -> (out: Result<bool, String>)
    ensures
        match belongs(pid, status@) {
            Ok(found) => out == Ok::<bool, String>(found),
            Err(message) => out matches Err(text) && text@ == message,
        },
{
    let text = match status {
        FileRead::Missing => {
            return Ok(false);
        },
        FileRead::Failed(message) => {
            return Err(message.clone());
        },
        FileRead::Contents(text) => text,
    };
    let read = lines_of(text.as_str());
    let ghost all = views(read@);
    let mut i: usize = 0;
    assert(all.skip(0) =~= all);
    while i < read.len()
        invariant
            i <= read@.len(),
            all == views(read@),
            thread_group(all) == thread_group(all.skip(i as int)),
            belongs(pid, status@) == Ok::<bool, Seq<char>>(thread_group(all) == Some(pid)),
        decreases read.len() - i,
    {
        proof {
            assert(all.skip(i as int)[0] == read@[i as int]@);
            assert(all.skip(i as int).drop_first() =~= all.skip(i + 1));
        }
        match read_thread_group(read[i].as_str()) {
            Some(found) => {
                return Ok(found == pid);
            },
            None => {},
        }
        i += 1;
    }
    Ok(false)
}

/// Paths below the root of `/proc`.
pub struct Procfs {
    pub root: UnixPath,
}

impl Procfs {
    /// The directory of a process.
    pub fn process_path(&self, pid: u32) -> (out: UnixPath)
        ensures
            out@ == child(self.root@, decimal(pid as nat)),
    {
        self.root.join(decimal_text(pid as u64).as_str())
    }

    /// The `stat` file of a process.
    pub fn stat_path(&self, pid: u32) -> (out: UnixPath)
        ensures
            out@ == child(child(self.root@, decimal(pid as nat)), "stat"@),
    {
        self.process_path(pid).join("stat")
    }

    /// The directory of the threads of a process.
    pub fn task_root(&self, pid: u32) -> (out: UnixPath)
        ensures
            out@ == child(child(self.root@, decimal(pid as nat)), "task"@),
    {
        self.process_path(pid).join("task")
    }

    /// The `status` file of a thread.
    pub fn status_path(&self, pid: u32, tid: u32) -> (out: UnixPath)
        ensures
            out@ == child(
                child(
                    child(child(self.root@, decimal(pid as nat)), "task"@),
                    decimal(tid as nat),
                ),
                "status"@,
            ),
    {
        self.task_root(pid).join(decimal_text(tid as u64).as_str()).join("status")
    }

    /// The `children` file of a thread.
    pub fn children_path(&self, pid: u32, tid: u32) -> (out: UnixPath)
        ensures
            out@ == child(
                child(
                    child(child(self.root@, decimal(pid as nat)), "task"@),
                    decimal(tid as nat),
                ),
                "children"@,
            ),
    {
        self.task_root(pid).join(decimal_text(tid as u64).as_str()).join("children")
    }

    /// The `stat` file of this process.
    pub fn self_stat_path(&self) -> (out: UnixPath)
        ensures
            out@ == child(self.root@, "self/stat"@),
    {
        self.root.join("self/stat")
    }

    /// The `children` file of a thread of this process.
    pub fn self_children_path(&self, tid: u32) -> (out: UnixPath)
        ensures
            out@ == child(
                child(child(self.root@, "self/task"@), decimal(tid as nat)),
                "children"@,
            ),
    {
        self.root.join("self/task").join(decimal_text(tid as u64).as_str()).join("children")
    }
}

/// What stands at the root of `/proc`.
#[derive(Debug, PartialEq, Eq)]
pub enum ProcfsRoot {
    Directory,
    NotDirectory,
    /// It could not be inspected; the system's message.
    Failed(String),
}

/// What could be read below the root of `/proc`.
#[derive(Debug, PartialEq, Eq)]
pub struct ProcfsState {
    pub root: ProcfsRoot,
    /// The system's message, where this process's `stat` file could not be
    /// read.
    pub self_stat: Option<String>,
    /// The system's message, where this process's `children` file could not be
    /// read.
    pub self_children: Option<String>,
}

/// Why `/proc` cannot be used for supervision.
pub open spec fn procfs_problem(state: ProcfsState) -> Option<Seq<char>> {
    match state.root {
        ProcfsRoot::NotDirectory => Some("path is not a directory"@),
        ProcfsRoot::Failed(source) => Some(source@),
        ProcfsRoot::Directory => match state.self_stat {
            Some(source) => Some("self process metadata cannot be read: "@ + source@),
            None => match state.self_children {
                Some(source) => Some("self task child metadata cannot be read: "@ + source@),
                None => None,
            },
        },
    }
}

/// Why `/proc` cannot be used for supervision.
pub open spec fn procfs_failure(root: Seq<u8>, state: ProcfsState) -> Option<SupervisorErrorView> {
    match procfs_problem(state) {
        Some(reason) => Some(SupervisorErrorView::ProcfsUnavailable { root, reason }),
        None => None,
    }
}

fn unavailable(root: &UnixPath, reason: String) -> (out: Result<(), SupervisorError>)
    ensures
        supervisor_failure(out) == Some(
            SupervisorErrorView::ProcfsUnavailable { root: root@, reason: reason@ },
        ),
{
    Err(SupervisorError::ProcfsUnavailable { root: root.clone(), reason })
}

/// Whether `/proc` can be used for supervision.
pub fn validate_procfs_root(root: &UnixPath, state: &ProcfsState) -> (out: Result<
    (),
    SupervisorError,
>)
    ensures
        supervisor_failure(out) == procfs_failure(root@, *state),
{
    match &state.root {
        ProcfsRoot::NotDirectory => {
            return unavailable(root, "path is not a directory".to_owned());
        },
        ProcfsRoot::Failed(source) => {
            return unavailable(root, source.clone());
        },
        ProcfsRoot::Directory => {},
    }
    match &state.self_stat {
        Some(source) => {
            return unavailable(
                root,
                "self process metadata cannot be read: ".to_owned().concat(source.as_str()),
            );
        },
        None => {},
    }
    match &state.self_children {
        Some(source) => unavailable(
            root,
            "self task child metadata cannot be read: ".to_owned().concat(source.as_str()),
        ),
        None => Ok(()),
    }
}

} // verus!
