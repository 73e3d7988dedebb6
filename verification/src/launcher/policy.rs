//! What a launched process is given: CPUs, an I/O priority and a command line.
use vstd::prelude::*;
use vstd::utf8::encode_utf8;

use super::error::{LauncherError, LauncherErrorView};

use crate::path::UnixPath;
use crate::registry::model::IoPriorityClass;
use crate::text::views;

verus! {

/// A check by its outcome.
pub open spec fn launch_failure(r: Result<(), LauncherError>) -> Option<LauncherErrorView> {
    match r {
        Ok(_) => None,
        Err(e) => Some(e@),
    }
}

/// `nix::sched::CpuSet`: the CPUs on which a thread may run.
#[verifier::external_type_specification]
#[verifier::external_body]
pub struct ExCpuSet(nix::sched::CpuSet);

/// The CPUs in a set.
pub uninterp spec fn cpu_members(set: nix::sched::CpuSet) -> Set<int>;

/// How many CPUs a set can hold on Linux: the bits of `cpu_set_t`.
pub const CPU_SET_SIZE: usize = 1024;

/// What `nix` says of a CPU that a set cannot hold.
pub open spec fn invalid_cpu_text() -> Seq<char> {
    "EINVAL: Invalid argument"@
}

/// `nix::sched::CpuSet::new`. Claimed: the set holds no CPU.
#[verifier::external_body]
fn empty_cpu_set() -> (out: nix::sched::CpuSet)
    ensures
        cpu_members(out) == Set::<int>::empty(),
{
    nix::sched::CpuSet::new()
}

/// `nix::sched::CpuSet::set`. Claimed: a CPU below [`CPU_SET_SIZE`] is added;
/// any other is refused with `EINVAL`, and the set stays as it is.
#[verifier::external_body]
fn add_cpu(set: &mut nix::sched::CpuSet, cpu: usize) -> (out: Result<(), String>)
    ensures
        out is Ok <==> cpu < CPU_SET_SIZE,
        out is Ok ==> cpu_members(*final(set)) == cpu_members(*old(set)).insert(cpu as int),
        out is Err ==> cpu_members(*final(set)) == cpu_members(*old(set)) && out->Err_0@
            == invalid_cpu_text(),
{
    set.set(cpu).map_err(|error| error.to_string())
}

/// `nix::sched::CpuSet::is_set`. Claimed: it tells whether a CPU below
/// [`CPU_SET_SIZE`] is in the set.
#[verifier::external_body]
fn has_cpu(set: &nix::sched::CpuSet, cpu: usize) -> (out: Option<bool>)
    ensures
        cpu < CPU_SET_SIZE ==> out == Some(cpu_members(*set).contains(cpu as int)),
        cpu >= CPU_SET_SIZE ==> out is None,
{
    set.is_set(cpu).ok()
}

/// Why some CPUs cannot be an affinity set: there are none, or one is beyond
/// what a set can hold.
pub open spec fn cpu_set_failure(cpus: Seq<u32>) -> Option<LauncherErrorView> {
    if cpus.len() == 0 {
        Some(LauncherErrorView::EmptyEfficiencyCpus)
    } else {
        first_invalid_cpu(cpus)
    }
}

pub open spec fn first_invalid_cpu(cpus: Seq<u32>) -> Option<LauncherErrorView>
    decreases cpus.len(),
{
    if cpus.len() == 0 {
        None
    } else if first_invalid_cpu(cpus.drop_last()) is Some {
        first_invalid_cpu(cpus.drop_last())
    } else if cpus.last() >= CPU_SET_SIZE {
        Some(
            LauncherErrorView::InvalidAffinityCpu { cpu: cpus.last(), source: invalid_cpu_text() },
        )
    } else {
        None
    }
}

/// The numbers in a sequence.
pub open spec fn number_set(cpus: Seq<u32>) -> Set<int> {
    Set::new(|cpu: int| 0 <= cpu <= u32::MAX && cpus.contains(cpu as u32))
}

proof fn lemma_first_invalid(cpus: Seq<u32>, k: int)
    requires
        0 <= k <= cpus.len(),
        first_invalid_cpu(cpus.take(k)) is Some,
    ensures
        first_invalid_cpu(cpus) == first_invalid_cpu(cpus.take(k)),
    decreases cpus.len(),
{
    if k < cpus.len() {
        assert(cpus.drop_last().take(k) =~= cpus.take(k));
        lemma_first_invalid(cpus.drop_last(), k);
    } else {
        assert(cpus.take(k) =~= cpus);
    }
}

proof fn lemma_number_set_push(cpus: Seq<u32>, cpu: u32)
    ensures
        number_set(cpus.push(cpu)) == number_set(cpus).insert(cpu as int),
{
    let more = cpus.push(cpu);
    assert forall|x: int|
        number_set(more).contains(x) <==> number_set(cpus).insert(cpu as int).contains(x) by {
        if 0 <= x <= u32::MAX {
            let y = x as u32;
            if more.contains(y) {
                let i = choose|i: int| 0 <= i < more.len() && more[i] == y;
                if i < cpus.len() {
                    assert(cpus[i] == y);
                }
            }
            if cpus.contains(y) {
                let i = choose|i: int| 0 <= i < cpus.len() && cpus[i] == y;
                assert(more[i] == y);
            }
            assert(more[cpus.len() as int] == cpu);
        }
    }
    assert(number_set(more) =~= number_set(cpus).insert(cpu as int));
}

/// The affinity set of some CPUs.
pub fn build_cpu_set(cpus: &Vec<u32>) -> (out: Result<nix::sched::CpuSet, LauncherError>)
    ensures
        match cpu_set_failure(cpus@) {
            Some(e) => out matches Err(error) && error@ == e,
            None => out matches Ok(set) && cpu_members(set) == number_set(cpus@),
        },
{
    if cpus.len() == 0 {
        return Err(LauncherError::EmptyEfficiencyCpus);
    }
    let mut set = empty_cpu_set();
    let mut i: usize = 0;
    assert(number_set(cpus@.take(0)) =~= Set::empty());
    while i < cpus.len()
        invariant
            i <= cpus@.len(),
            0 < cpus@.len(),
            first_invalid_cpu(cpus@.take(i as int)) is None,
            cpu_members(set) == number_set(cpus@.take(i as int)),
        decreases cpus.len() - i,
    {
        let cpu: u32 = cpus[i];
        proof {
            assert(cpus@.take(i + 1).drop_last() =~= cpus@.take(i as int));
            assert(cpus@.take(i + 1) =~= cpus@.take(i as int).push(cpu));
            lemma_number_set_push(cpus@.take(i as int), cpu);
        }
        match add_cpu(&mut set, cpu as usize) {
            Ok(_) => {},
            Err(source) => {
                proof {
                    lemma_first_invalid(cpus@, i + 1);
                }
                return Err(LauncherError::InvalidAffinityCpu { cpu, source });
            },
        }
        i += 1;
    }
    assert(cpus@.take(cpus@.len() as int) =~= cpus@);
    Ok(set)
}

/// Whether some CPUs can be an affinity set.
pub fn validate_cpu_set(cpus: &Vec<u32>) -> (out: Result<(), LauncherError>)
    ensures
        launch_failure(out) == cpu_set_failure(cpus@),
{
    match build_cpu_set(cpus) {
        Ok(_) => Ok(()),
        Err(e) => Err(e),
    }
}

/// The CPUs that a set can hold and that are in it.
pub open spec fn held_cpus(set: nix::sched::CpuSet) -> Set<int> {
    cpu_members(set).intersect(Set::new(|cpu: int| 0 <= cpu < CPU_SET_SIZE))
}

/// Whether two sets hold the same CPUs.
pub fn cpu_sets_equal(left: &nix::sched::CpuSet, right: &nix::sched::CpuSet) -> (out: bool)
    ensures
        out == (held_cpus(*left) == held_cpus(*right)),
{
    let mut cpu: usize = 0;
    while cpu < CPU_SET_SIZE
        invariant
            cpu <= CPU_SET_SIZE,
            forall|x: int|
                0 <= x < cpu ==> cpu_members(*left).contains(x) == cpu_members(*right).contains(x),
        decreases CPU_SET_SIZE - cpu,
    {
        let in_left = match has_cpu(left, cpu) {
            Some(found) => found,
            None => false,
        };
        let in_right = match has_cpu(right, cpu) {
            Some(found) => found,
            None => false,
        };
        if in_left != in_right {
            assert(held_cpus(*left).contains(cpu as int) != held_cpus(*right).contains(cpu as int));
            return false;
        }
        cpu += 1;
    }
    assert(held_cpus(*left) =~= held_cpus(*right));
    true
}

/// The members of a set below a bound, in ascending order.
pub open spec fn members_below(set: Set<int>, bound: int) -> Seq<u32>
    decreases bound,
{
    if bound <= 0 {
        Seq::empty()
    } else if set.contains(bound - 1) {
        members_below(set, bound - 1).push((bound - 1) as u32)
    } else {
        members_below(set, bound - 1)
    }
}

/// The CPUs in a set, in ascending order.
pub fn cpu_set_values(set: &nix::sched::CpuSet) -> (out: Vec<u32>)
    ensures
        out@ == members_below(cpu_members(*set), CPU_SET_SIZE as int),
{
    let mut out: Vec<u32> = Vec::new();
    let mut cpu: usize = 0;
    while cpu < CPU_SET_SIZE
        invariant
            cpu <= CPU_SET_SIZE,
            out@ == members_below(cpu_members(*set), cpu as int),
        decreases CPU_SET_SIZE - cpu,
    {
        match has_cpu(set, cpu) {
            Some(found) => {
                if found {
                    out.push(cpu as u32);
                }
            },
            None => {},
        }
        cpu += 1;
    }
    out
}

/// `ioprio::BePriorityLevel::from_level`, `ioprio::Priority::new` and
/// `ioprio::Priority::inner`: the mask of a best-effort priority. Claimed: the
/// class number 2 stands in the three highest bits and the level in the rest,
/// and there are the levels 0 to 7.
#[verifier::external_body]
fn best_effort_mask(level: u8) -> (out: Option<u16>)
    ensures
        out == if level < 8 {
            Some((2 * 8192 + level) as u16)
        } else {
            None::<u16>
        },
{
    ioprio::BePriorityLevel::from_level(level).map(
        |level| ioprio::Priority::new(ioprio::Class::BestEffort(level)).inner(),
    )
}

/// `ioprio::RtPriorityLevel::from_level`, `ioprio::Priority::new` and
/// `ioprio::Priority::inner`: the mask of a realtime priority. Claimed: the
/// class number 1 stands in the three highest bits and the level in the rest,
/// and there are the levels 0 to 7.
#[verifier::external_body]
fn realtime_mask(level: u8) -> (out: Option<u16>)
    ensures
        out == if level < 8 {
            Some((8192 + level) as u16)
        } else {
            None::<u16>
        },
{
    ioprio::RtPriorityLevel::from_level(level).map(
        |level| ioprio::Priority::new(ioprio::Class::Realtime(level)).inner(),
    )
}

/// `ioprio::Priority::new` and `ioprio::Priority::inner`: the mask of the idle
/// priority. Claimed: the class number 3 stands in the three highest bits.
#[verifier::external_body]
fn idle_mask() -> (out: u16)
    ensures
        out == 3 * 8192,
{
    ioprio::Priority::new(ioprio::Class::Idle).inner()
}

/// The mask that a policy asks for: none where it leaves the priority alone.
pub open spec fn io_mask(class: IoPriorityClass, priority: Option<u8>) -> Result<
    Option<u16>,
    LauncherErrorView,
> {
    match (class, priority) {
        (IoPriorityClass::Unset, None) => Ok(None),
        (IoPriorityClass::Idle, None) => Ok(Some((3 * 8192) as u16)),
        (IoPriorityClass::BestEffort, Some(level)) => if level < 8 {
            Ok(Some((2 * 8192 + level) as u16))
        } else {
            Err(LauncherErrorView::InvalidIoPolicy { class, priority })
        },
        (IoPriorityClass::Realtime, Some(level)) => if level < 8 {
            Ok(Some((8192 + level) as u16))
        } else {
            Err(LauncherErrorView::InvalidIoPolicy { class, priority })
        },
        _ => Err(LauncherErrorView::InvalidIoPolicy { class, priority }),
    }
}

/// The I/O priority mask that a policy asks for.
pub fn map_io_priority(class: IoPriorityClass, priority: Option<u8>) -> (out: Result<
    Option<u16>,
    LauncherError,
>)
    ensures
        match io_mask(class, priority) {
            Ok(mask) => out matches Ok(found) && found == mask,
            Err(e) => out matches Err(error) && error@ == e,
        },
{
    match (class, priority) {
        (IoPriorityClass::Unset, None) => Ok(None),
        (IoPriorityClass::Idle, None) => Ok(Some(idle_mask())),
        (IoPriorityClass::BestEffort, Some(level)) => match best_effort_mask(level) {
            Some(mask) => Ok(Some(mask)),
            None => Err(LauncherError::InvalidIoPolicy { class, priority }),
        },
        (IoPriorityClass::Realtime, Some(level)) => match realtime_mask(level) {
            Some(mask) => Ok(Some(mask)),
            None => Err(LauncherError::InvalidIoPolicy { class, priority }),
        },
        _ => Err(LauncherError::InvalidIoPolicy { class, priority }),
    }
}

/// Where the first zero byte stands, looked for from a position on.
pub open spec fn first_nul(bytes: Seq<u8>, from: int) -> Option<int>
    decreases bytes.len() - from,
{
    if from >= bytes.len() {
        None
    } else if bytes[from] == 0 {
        Some(from)
    } else {
        first_nul(bytes, from + 1)
    }
}

/// Why bytes cannot be passed to exec.
pub open spec fn nul_failure(bytes: Seq<u8>, field: Seq<char>) -> Option<LauncherErrorView> {
    match first_nul(bytes, 0) {
        Some(position) => Some(LauncherErrorView::InvalidExecArgument { field, position }),
        None => None,
    }
}

/// Whether bytes can be passed to exec.
pub fn check_exec_bytes(bytes: &[u8], field: &str) -> (out: Result<(), LauncherError>)
    ensures
        launch_failure(out) == nul_failure(bytes@, field@),
{
    let mut position: usize = 0;
    while position < bytes.len()
        invariant
            position <= bytes@.len(),
            first_nul(bytes@, 0) == first_nul(bytes@, position as int),
        decreases bytes.len() - position,
    {
        if bytes[position] == 0 {
            return Err(LauncherError::InvalidExecArgument { field: field.to_owned(), position });
        }
        position += 1;
    }
    Ok(())
}

/// Why arguments cannot be passed to exec: the first of them that cannot.
pub open spec fn arguments_failure(arguments: Seq<Seq<u8>>) -> Option<LauncherErrorView>
    decreases arguments.len(),
{
    if arguments.len() == 0 {
        None
    } else if arguments_failure(arguments.drop_last()) is Some {
        arguments_failure(arguments.drop_last())
    } else {
        nul_failure(arguments.last(), "argument"@)
    }
}

/// Why a command cannot be passed to exec.
pub open spec fn exec_failure(executable: Seq<u8>, arguments: Seq<Seq<u8>>) -> Option<
    LauncherErrorView,
> {
    if nul_failure(executable, "executable"@) is Some {
        nul_failure(executable, "executable"@)
    } else {
        arguments_failure(arguments)
    }
}

proof fn lemma_arguments_failure(arguments: Seq<Seq<u8>>, k: int)
    requires
        0 <= k <= arguments.len(),
        arguments_failure(arguments.take(k)) is Some,
    ensures
        arguments_failure(arguments) == arguments_failure(arguments.take(k)),
    decreases arguments.len(),
{
    if k < arguments.len() {
        assert(arguments.drop_last().take(k) =~= arguments.take(k));
        lemma_arguments_failure(arguments.drop_last(), k);
    } else {
        assert(arguments.take(k) =~= arguments);
    }
}

/// Texts by their UTF-8 bytes.
pub open spec fn encoded(texts: Seq<Seq<char>>) -> Seq<Seq<u8>> {
    texts.map_values(|text: Seq<char>| encode_utf8(text))
}

/// Whether a command can be passed to exec.
pub fn validate_exec_inputs(executable: &UnixPath, arguments: &Vec<String>) -> (out: Result<
    (),
    LauncherError,
>)
    ensures
        launch_failure(out) == exec_failure(executable@, encoded(views(arguments@))),
{
    match check_exec_bytes(executable.bytes.as_slice(), "executable") {
        Ok(_) => {},
        Err(e) => {
            return Err(e);
        },
    }
    let ghost all = encoded(views(arguments@));
    let mut i: usize = 0;
    assert(all.take(0) =~= Seq::empty());
    while i < arguments.len()
        invariant
            i <= arguments@.len(),
            all == encoded(views(arguments@)),
            nul_failure(executable@, "executable"@) is None,
            arguments_failure(all.take(i as int)) is None,
        decreases arguments.len() - i,
    {
        proof {
            assert(all.take(i + 1).drop_last() =~= all.take(i as int));
            assert(all.take(i + 1).last() == encode_utf8(arguments@[i as int]@));
        }
        match check_exec_bytes(arguments[i].as_str().as_bytes(), "argument") {
            Ok(_) => {},
            Err(e) => {
                proof {
                    lemma_arguments_failure(all, i + 1);
                }
                return Err(e);
            },
        }
        i += 1;
    }
    assert(all.take(all.len() as int) =~= all);
    Ok(())
}

/// Whether a command given in bytes can be passed to exec.
pub fn prepare_exec_target(executable: &UnixPath, arguments: &Vec<UnixPath>) -> (out: Result<
    (),
    LauncherError,
>)
    ensures
        launch_failure(out) == exec_failure(executable@, views(arguments@)),
{
    match check_exec_bytes(executable.bytes.as_slice(), "executable") {
        Ok(_) => {},
        Err(e) => {
            return Err(e);
        },
    }
    let ghost all = views(arguments@);
    let mut i: usize = 0;
    assert(all.take(0) =~= Seq::empty());
    while i < arguments.len()
        invariant
            i <= arguments@.len(),
            all == views(arguments@),
            nul_failure(executable@, "executable"@) is None,
            arguments_failure(all.take(i as int)) is None,
        decreases arguments.len() - i,
    {
        proof {
            assert(all.take(i + 1).drop_last() =~= all.take(i as int));
            assert(all.take(i + 1).last() == arguments@[i as int]@);
        }
        match check_exec_bytes(arguments[i].bytes.as_slice(), "argument") {
            Ok(_) => {},
            Err(e) => {
                proof {
                    lemma_arguments_failure(all, i + 1);
                }
                return Err(e);
            },
        }
        i += 1;
    }
    assert(all.take(all.len() as int) =~= all);
    Ok(())
}

} // verus!
