//! Moving through lists and adjusting values within bounds.
use vstd::prelude::*;
use vstd::string::StrSliceExecFns;
use vstd::string::StringExecFns;

use crate::registry::model::IoPriorityClass;
use crate::text::{decimal, decimal_text, group_views, join, join_text, views};

verus! {

/// A number brought between two bounds.
pub open spec fn clamped(n: int, low: int, high: int) -> int {
    if n < low {
        low
    } else if n > high {
        high
    } else {
        n
    }
}

/// A position moved within a list of some length; 0 where the list is empty.
pub open spec fn moved(current: int, len: int, delta: int) -> int {
    if len == 0 {
        0
    } else if delta < 0 {
        if current + delta < 0 {
            0
        } else {
            current + delta
        }
    } else if current + delta > len - 1 {
        len - 1
    } else {
        current + delta
    }
}

/// Move a position within a list, no further than to its ends.
pub fn move_index(current: usize, len: usize, delta: i32) -> (out: usize)
    ensures
        out == moved(current as int, len as int, delta as int),
        current < len ==> out < len,
{
    if len == 0 {
        return 0;
    }
    if delta < 0 {
        let wide: i64 = delta as i64;
        let back: u64 = (-wide) as u64;
        if (current as u64) < back {
            0
        } else {
            (current as u64 - back) as usize
        }
    } else {
        let ahead: u64 = delta as u64;
        let last: usize = len - 1;
        if current >= last || ahead > (last - current) as u64 {
            last
        } else {
            current + delta as usize
        }
    }
}

/// Bring a position into a list.
pub fn clamp_index(current: usize, len: usize) -> (out: usize)
    ensures
        out == if len == 0 {
            0
        } else {
            clamped(current as int, 0, len - 1)
        },
{
    if len == 0 {
        0
    } else if current > len - 1 {
        len - 1
    } else {
        current
    }
}

/// Move a position around a list: after its end comes its beginning.
pub fn cycle_index(current: usize, len: usize, delta: i32) -> (out: usize)
    requires
        len <= i32::MAX,
        i32::MIN <= current + delta <= i32::MAX,
    ensures
        out == if len == 0 {
            0
        } else {
            (current + delta) % (len as int)
        },
        0 < len ==> out < len,
{
    if len == 0 {
        return 0;
    }
    let size: i64 = len as i64;
    let sum: i64 = current as i64 + delta as i64;
    if sum >= 0 {
        let out: u64 = sum as u64 % size as u64;
        assert(out == (current + delta) % (len as int));
        return out as usize;
    }
    let back: u64 = (-sum) as u64;
    let rest: u64 = back % size as u64;
    proof {
        vstd::arithmetic::div_mod::lemma_fundamental_div_mod(back as int, len as int);
        let q = back as int / (len as int);
        assert(back == q * len + rest) by (nonlinear_arith)
            requires
                back as int == (len as int) * q + (back as int % (len as int)),
                rest as int == back as int % (len as int),
        ;
        if rest == 0 {
            assert(sum == (-q) * len + 0) by (nonlinear_arith)
                requires
                    back == q * len + rest,
                    rest == 0,
                    sum == -(back as int),
            ;
            vstd::arithmetic::div_mod::lemma_fundamental_div_mod_converse(
                sum as int,
                len as int,
                -q,
                0,
            );
        } else {
            assert(sum == (-q - 1) * len + (len - rest)) by (nonlinear_arith)
                requires
                    back == q * len + rest,
                    sum == -(back as int),
            ;
            vstd::arithmetic::div_mod::lemma_fundamental_div_mod_converse(
                sum as int,
                len as int,
                -q - 1,
                len - rest,
            );
        }
    }
    if rest == 0 {
        0
    } else {
        (size as u64 - rest) as usize
    }
}

/// Step down, not below the minimum, or up, not above the maximum.
pub open spec fn adjusted(value: int, direction: int, step: int, min: int, max: int) -> int {
    if direction < 0 {
        if value - step < min {
            min
        } else {
            value - step
        }
    } else if value + step > max {
        max
    } else {
        value + step
    }
}

/// Step a value down, not below the minimum, or up, not above the maximum.
pub fn adjust_u64(value: u64, direction: i32, step: u64, min: u64, max: u64) -> (out: u64)
    ensures
        out == adjusted(value as int, direction as int, step as int, min as int, max as int),
{
    if direction < 0 {
        let lower: u64 = if value < step {
            0
        } else {
            value - step
        };
        if lower < min {
            min
        } else {
            lower
        }
    } else {
        let higher: u64 = if value > u64::MAX - step {
            u64::MAX
        } else {
            value + step
        };
        if higher > max {
            max
        } else {
            higher
        }
    }
}

/// Step a value down, not below the minimum, or up, not above the maximum.
pub fn adjust_u8(value: u8, direction: i32, step: u8, min: u8, max: u8) -> (out: u8)
    ensures
        out == adjusted(value as int, direction as int, step as int, min as int, max as int),
{
    if direction < 0 {
        let lower: u8 = if value < step {
            0
        } else {
            value - step
        };
        if lower < min {
            min
        } else {
            lower
        }
    } else {
        let higher: u8 = if value > u8::MAX - step {
            u8::MAX
        } else {
            value + step
        };
        if higher > max {
            max
        } else {
            higher
        }
    }
}

/// Step a value down, not below the minimum, or up, not above the maximum.
pub fn adjust_i8(value: i8, direction: i32, step: i8, min: i8, max: i8) -> (out: i8)
    ensures
        out == if direction < 0 {
            let lower = clamped(value - step, i8::MIN as int, i8::MAX as int);
            if lower < min {
                min as int
            } else {
                lower
            }
        } else {
            let higher = clamped(value + step, i8::MIN as int, i8::MAX as int);
            if higher > max {
                max as int
            } else {
                higher
            }
        },
        step >= 0 ==> out == adjusted(
            value as int,
            direction as int,
            step as int,
            min as int,
            max as int,
        ),
{
    let exact: i16 = if direction < 0 {
        value as i16 - step as i16
    } else {
        value as i16 + step as i16
    };
    let wide: i16 = if exact < -128 {
        -128
    } else if exact > 127 {
        127
    } else {
        exact
    };
    if direction < 0 {
        if wide < min as i16 {
            min
        } else {
            wide as i8
        }
    } else if wide > max as i16 {
        max
    } else {
        wide as i8
    }
}

/// Where an I/O class stands among those that are offered.
pub open spec fn class_position(class: IoPriorityClass) -> int {
    match class {
        IoPriorityClass::Unset => 0,
        IoPriorityClass::BestEffort => 1,
        IoPriorityClass::Realtime => 2,
        IoPriorityClass::Idle => 3,
    }
}

/// The next I/O class in a direction, around the list of them.
pub fn cycle_io_class(current: IoPriorityClass, delta: i32) -> (out: IoPriorityClass)
    requires
        delta <= i32::MAX - 3,
    ensures
        class_position(out) == (class_position(current) + delta) % 4,
{
    let position: usize = match current {
        IoPriorityClass::Unset => 0,
        IoPriorityClass::BestEffort => 1,
        IoPriorityClass::Realtime => 2,
        IoPriorityClass::Idle => 3,
    };
    match cycle_index(position, 4, delta) {
        0 => IoPriorityClass::Unset,
        1 => IoPriorityClass::BestEffort,
        2 => IoPriorityClass::Realtime,
        _ => IoPriorityClass::Idle,
    }
}

/// The priority that goes with a class: none, or one, which is 4 where none
/// was chosen.
pub open spec fn fitting_priority(priority: Option<u8>, class: IoPriorityClass) -> Option<u8> {
    match class {
        IoPriorityClass::Unset | IoPriorityClass::Idle => None,
        IoPriorityClass::BestEffort | IoPriorityClass::Realtime => match priority {
            Some(level) => Some(level),
            None => Some(4),
        },
    }
}

/// Make a priority go with a class.
pub fn normalize_io_priority(priority: &mut Option<u8>, class: IoPriorityClass)
    ensures
        *final(priority) == fitting_priority(*old(priority), class),
{
    match class {
        IoPriorityClass::Unset | IoPriorityClass::Idle => {
            *priority = None;
        },
        IoPriorityClass::BestEffort | IoPriorityClass::Realtime => {
            if priority.is_none() {
                *priority = Some(4);
            }
        },
    }
}

/// The number after a CPU; the last number stays.
pub open spec fn following(cpu: u32) -> u32 {
    if cpu == u32::MAX {
        u32::MAX
    } else {
        (cpu + 1) as u32
    }
}

/// The runs of numbers in a list that follow each other.
pub open spec fn cpu_runs(cpus: Seq<u32>) -> Seq<(u32, u32)>
    decreases cpus.len(),
{
    if cpus.len() == 0 {
        Seq::empty()
    } else {
        let front = cpu_runs(cpus.drop_last());
        if front.len() > 0 && cpus.last() == following(front.last().1) {
            front.drop_last().push((front.last().0, cpus.last()))
        } else {
            front.push((cpus.last(), cpus.last()))
        }
    }
}

pub open spec fn run_text(start: u32, end: u32) -> Seq<char> {
    if start == end {
        decimal(start as nat)
    } else {
        decimal(start as nat) + "-"@ + decimal(end as nat)
    }
}

/// CPUs as a compact list.
pub open spec fn compact_cpus(cpus: Seq<u32>) -> Seq<char> {
    if cpus.len() == 0 {
        "none"@
    } else {
        join(cpu_runs(cpus).map_values(|run: (u32, u32)| run_text(run.0, run.1)), ","@)
    }
}

/// A run of CPUs.
pub fn format_cpu_range(start: u32, end: u32) -> (out: String)
    ensures
        out@ == run_text(start, end),
{
    if start == end {
        decimal_text(start as u64)
    } else {
        decimal_text(start as u64).concat("-").concat(decimal_text(end as u64).as_str())
    }
}

/// CPUs as a compact list.
pub fn format_cpus(cpus: &Vec<u32>) -> (out: String)
    ensures
        out@ == compact_cpus(cpus@),
{
    broadcast use group_views;

    if cpus.len() == 0 {
        return "none".to_owned();
    }
    let ghost shown = |run: (u32, u32)| run_text(run.0, run.1);
    let mut ranges: Vec<String> = Vec::new();
    let mut start: u32 = cpus[0];
    let mut previous: u32 = cpus[0];
    let ghost mut done: Seq<(u32, u32)> = Seq::empty();
    let mut i: usize = 1;
    proof {
        assert(cpus@.take(1).drop_last() =~= Seq::empty());
        assert(cpus@.take(1).last() == start);
        assert(cpu_runs(Seq::<u32>::empty()) =~= done);
        assert(cpu_runs(cpus@.take(1)) =~= done.push((start, previous)));
        assert(done.map_values(shown) =~= Seq::empty());
    }
    while i < cpus.len()
        invariant
            1 <= i <= cpus@.len(),
            shown == (|run: (u32, u32)| run_text(run.0, run.1)),
            cpu_runs(cpus@.take(i as int)) == done.push((start, previous)),
            views(ranges@) == done.map_values(shown),
        decreases cpus.len() - i,
    {
        let cpu: u32 = cpus[i];
        proof {
            assert(cpus@.take(i + 1).drop_last() =~= cpus@.take(i as int));
            assert(cpus@.take(i + 1).last() == cpu);
            assert(done.push((start, previous)).drop_last() =~= done);
        }
        let next: u32 = if previous == u32::MAX {
            u32::MAX
        } else {
            previous + 1
        };
        if cpu == next {
            previous = cpu;
        } else {
            proof {
                assert(done.push((start, previous)).map_values(shown) =~= done.map_values(
                    shown,
                ).push(run_text(start, previous)));
                done = done.push((start, previous));
            }
            ranges.push(format_cpu_range(start, previous));
            start = cpu;
            previous = cpu;
        }
        i += 1;
    }
    proof {
        assert(cpus@.take(cpus@.len() as int) =~= cpus@);
        assert(done.push((start, previous)).map_values(shown) =~= done.map_values(shown).push(
            run_text(start, previous),
        ));
    }
    ranges.push(format_cpu_range(start, previous));
    join_text(&ranges, ",")
}

/// A text of at most some characters: where it is longer, its beginning and an
/// ellipsis.
pub open spec fn truncated(value: Seq<char>, max_chars: int) -> Seq<char> {
    if value.len() <= max_chars {
        value
    } else if max_chars <= 1 {
        seq!['…']
    } else {
        value.take(max_chars - 1).push('…')
    }
}

/// A text of at most some characters.
pub fn truncate(value: &str, max_chars: usize) -> (out: String)
    ensures
        out@ == truncated(value@, max_chars as int),
{
    if value.unicode_len() <= max_chars {
        return value.to_owned();
    }
    let mut out = String::new();
    if max_chars > 1 {
        out = value.substring_char(0, max_chars - 1).to_owned();
    }
    out.push('…');
    assert(out@ =~= truncated(value@, max_chars as int));
    out
}

} // verus!
