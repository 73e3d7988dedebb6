//! The kernel's CPU-list syntax and its `core_type` values.
use vstd::prelude::*;
use vstd::string::StrSliceExecFns;
use vstd::string::StringExecFns;

use crate::order::{ascending, insert_ascending, insert_number, sorted_set, sorted_unique};
use crate::text::{
    all_digits, chars_of, decimal, decimal_text, digits_value, group_views, hex_value, is_digit,
    join, join_text, lemma_split_join, lemma_split_no_separator, lemma_split_not_empty,
    parse_hex_u32, parse_u32, split, split_text, starts_with, trim, trim_text, unsigned_value,
    views, without_prefix,
};

verus! {

/// The most CPU IDs that one list may expand to.
pub const MAX_EXPANDED_CPU_IDS: usize = 1_048_576;

/// Errors returned by the Linux CPU-list parser.
#[derive(Clone, Debug, PartialEq, Eq)]
pub enum CpuListParseError {
    /// The input contains no syntax after trimming.
    Empty,
    /// Two commas are adjacent, or a comma is leading/trailing.
    EmptyItem { position: usize },
    /// A list member is not an unsigned decimal CPU ID.
    InvalidCpuId { value: String },
    /// A range has missing or extra delimiters.
    InvalidRange { value: String },
    /// The range end is smaller than its start.
    DescendingRange { start: u32, end: u32 },
    /// One range is unreasonably large to materialize.
    RangeTooLarge { start: u32, end: u32 },
    /// The union of all list members is unreasonably large.
    TooManyCpuIds { limit: usize },
}

/// A parse error by its contents.
pub enum CpuListErrorView {
    Empty,
    EmptyItem { position: int },
    InvalidCpuId { value: Seq<char> },
    InvalidRange { value: Seq<char> },
    DescendingRange { start: u32, end: u32 },
    RangeTooLarge { start: u32, end: u32 },
    TooManyCpuIds { limit: int },
}

impl View for CpuListParseError {
    type V = CpuListErrorView;

    open spec fn view(&self) -> CpuListErrorView {
        match self {
            CpuListParseError::Empty => CpuListErrorView::Empty,
            CpuListParseError::EmptyItem { position } => CpuListErrorView::EmptyItem {
                position: *position as int,
            },
            CpuListParseError::InvalidCpuId { value } => CpuListErrorView::InvalidCpuId {
                value: value@,
            },
            CpuListParseError::InvalidRange { value } => CpuListErrorView::InvalidRange {
                value: value@,
            },
            CpuListParseError::DescendingRange { start, end } => CpuListErrorView::DescendingRange {
                start: *start,
                end: *end,
            },
            CpuListParseError::RangeTooLarge { start, end } => CpuListErrorView::RangeTooLarge {
                start: *start,
                end: *end,
            },
            CpuListParseError::TooManyCpuIds { limit } => CpuListErrorView::TooManyCpuIds {
                limit: *limit as int,
            },
        }
    }
}

/// The message of a parse error.
pub open spec fn cpu_list_error_text(e: CpuListErrorView) -> Seq<char> {
    match e {
        CpuListErrorView::Empty => "CPU list is empty"@,
        CpuListErrorView::EmptyItem { position } => "CPU list contains an empty item at position "@
            + decimal(position as nat),
        CpuListErrorView::InvalidCpuId { value } => "invalid CPU ID `"@ + value + "`"@,
        CpuListErrorView::InvalidRange { value } => "invalid CPU range `"@ + value + "`"@,
        CpuListErrorView::DescendingRange { start, end } => "descending CPU range "@ + decimal(
            start as nat,
        ) + "-"@ + decimal(end as nat) + " is not allowed"@,
        CpuListErrorView::RangeTooLarge { start, end } => "CPU range "@ + decimal(start as nat)
            + "-"@ + decimal(end as nat) + " expands to too many IDs"@,
        CpuListErrorView::TooManyCpuIds { limit } => "CPU list contains more than "@ + decimal(
            limit as nat,
        ) + " unique IDs"@,
    }
}

impl CpuListParseError {
    /// The message shown to the user.
    pub fn message(&self) -> (out: String)
        ensures
            out@ == cpu_list_error_text(self@),
    {
        match self {
            CpuListParseError::Empty => "CPU list is empty".to_owned(),
            CpuListParseError::EmptyItem { position } => {
                "CPU list contains an empty item at position ".to_owned().concat(
                    decimal_text(*position as u64).as_str(),
                )
            },
            CpuListParseError::InvalidCpuId { value } => {
                "invalid CPU ID `".to_owned().concat(value.as_str()).concat("`")
            },
            CpuListParseError::InvalidRange { value } => {
                "invalid CPU range `".to_owned().concat(value.as_str()).concat("`")
            },
            CpuListParseError::DescendingRange { start, end } => {
                "descending CPU range ".to_owned().concat(
                    decimal_text(*start as u64).as_str(),
                ).concat("-").concat(decimal_text(*end as u64).as_str()).concat(" is not allowed")
            },
            CpuListParseError::RangeTooLarge { start, end } => {
                "CPU range ".to_owned().concat(decimal_text(*start as u64).as_str()).concat(
                    "-",
                ).concat(decimal_text(*end as u64).as_str()).concat(" expands to too many IDs")
            },
            CpuListParseError::TooManyCpuIds { limit } => {
                "CPU list contains more than ".to_owned().concat(
                    decimal_text(*limit as u64).as_str(),
                ).concat(" unique IDs")
            },
        }
    }
}

/// The CPU ID that a text denotes, or the error that it is none.
pub open spec fn cpu_id(value: Seq<char>) -> Result<u32, CpuListErrorView> {
    if all_digits(value) && digits_value(value) <= u32::MAX {
        Ok(digits_value(value) as u32)
    } else {
        Err(CpuListErrorView::InvalidCpuId { value })
    }
}

/// The first and the last CPU of one list member, or why there are none.
pub open spec fn cpu_item(item: Seq<char>, position: int) -> Result<(u32, u32), CpuListErrorView> {
    let bounds = split(item, '-');
    if item.len() == 0 {
        Err(CpuListErrorView::EmptyItem { position })
    } else if bounds.len() == 1 {
        match cpu_id(item) {
            Ok(id) => Ok((id, id)),
            Err(e) => Err(e),
        }
    } else if bounds.len() > 2 || bounds[0].len() == 0 || bounds[1].len() == 0 {
        Err(CpuListErrorView::InvalidRange { value: item })
    } else {
        match cpu_id(bounds[0]) {
            Err(e) => Err(e),
            Ok(start) => match cpu_id(bounds[1]) {
                Err(e) => Err(e),
                Ok(end) => if start > end {
                    Err(CpuListErrorView::DescendingRange { start, end })
                } else if end - start + 1 > MAX_EXPANDED_CPU_IDS {
                    Err(CpuListErrorView::RangeTooLarge { start, end })
                } else {
                    Ok((start, end))
                },
            },
        }
    }
}

/// The numbers from `start` to `end` put into an ascending sequence.
pub open spec fn insert_range(s: Seq<u32>, start: u32, end: u32) -> Seq<u32>
    decreases end,
{
    if start > end {
        s
    } else if start == end {
        insert_number(s, end)
    } else {
        insert_number(insert_range(s, start, (end - 1) as u32), end)
    }
}

/// The CPUs of list members, or the first error among them.
pub open spec fn cpu_items(items: Seq<Seq<char>>) -> Result<Seq<u32>, CpuListErrorView>
    decreases items.len(),
{
    if items.len() == 0 {
        Ok(Seq::empty())
    } else {
        match cpu_items(items.drop_last()) {
            Err(e) => Err(e),
            Ok(cpus) => match cpu_item(items.last(), items.len() - 1) {
                Err(e) => Err(e),
                Ok((start, end)) => {
                    let all = insert_range(cpus, start, end);
                    if all.len() > MAX_EXPANDED_CPU_IDS {
                        Err(CpuListErrorView::TooManyCpuIds { limit: MAX_EXPANDED_CPU_IDS as int })
                    } else {
                        Ok(all)
                    }
                },
            },
        }
    }
}

/// The CPUs that a list names, in ascending order, or why it names none.
pub open spec fn cpu_list(input: Seq<char>) -> Result<Seq<u32>, CpuListErrorView> {
    if trim(input).len() == 0 {
        Err(CpuListErrorView::Empty)
    } else {
        cpu_items(split(trim(input), ','))
    }
}

/// A parse result by its contents.
pub open spec fn cpu_list_view(r: Result<Vec<u32>, CpuListParseError>) -> Result<
    Seq<u32>,
    CpuListErrorView,
> {
    match r {
        Ok(cpus) => Ok(cpus@),
        Err(e) => Err(e@),
    }
}

fn parse_cpu_id(value: &str) -> (out: Result<u32, CpuListParseError>)
    ensures
        match out {
            Ok(id) => cpu_id(value@) == Ok::<u32, CpuListErrorView>(id),
            Err(e) => cpu_id(value@) == Err::<u32, CpuListErrorView>(e@),
        },
{
    let chars = chars_of(value);
    if chars.len() > 0 && chars[0] != '+' {
        match parse_u32(value) {
            Some(id) => return Ok(id),
            None => {},
        }
    } else {
        assert(!all_digits(value@)) by {
            if value@.len() > 0 {
                assert(!is_digit(value@[0]));
            }
        }
    }
    Err(CpuListParseError::InvalidCpuId { value: value.to_owned() })
}

fn parse_cpu_item(item: &str, position: usize) -> (out: Result<(u32, u32), CpuListParseError>)
    ensures
        match out {
            Ok(range) => cpu_item(item@, position as int) == Ok::<(u32, u32), CpuListErrorView>(
                range,
            ) && range.0 <= range.1,
            Err(e) => cpu_item(item@, position as int) == Err::<(u32, u32), CpuListErrorView>(e@),
        },
{
    if item.unicode_len() == 0 {
        return Err(CpuListParseError::EmptyItem { position });
    }
    let bounds = split_text(item, '-');
    proof {
        lemma_split_not_empty(item@, '-');
        assert forall|i: int| 0 <= i < bounds@.len() implies split(item@, '-')[i]
            == #[trigger] bounds@[i]@ by {
            assert(views(bounds@)[i] == bounds@[i]@);
        }
    }
    if bounds.len() == 1 {
        return match parse_cpu_id(item) {
            Ok(id) => Ok((id, id)),
            Err(e) => Err(e),
        };
    }
    if bounds.len() > 2 || bounds[0].as_str().unicode_len() == 0
        || bounds[1].as_str().unicode_len() == 0 {
        return Err(CpuListParseError::InvalidRange { value: item.to_owned() });
    }
    match parse_cpu_id(bounds[0].as_str()) {
        Err(e) => Err(e),
        Ok(start) => match parse_cpu_id(bounds[1].as_str()) {
            Err(e) => Err(e),
            Ok(end) => if start > end {
                Err(CpuListParseError::DescendingRange { start, end })
            } else if end as u64 - start as u64 + 1 > MAX_EXPANDED_CPU_IDS as u64 {
                Err(CpuListParseError::RangeTooLarge { start, end })
            } else {
                Ok((start, end))
            },
        },
    }
}

fn extend_with_range(cpus: &mut Vec<u32>, start: u32, end: u32)
    requires
        start <= end,
    ensures
        final(cpus)@ == insert_range(old(cpus)@, start, end),
{
    let mut next: u32 = start;
    insert_ascending(cpus, next);
    while next < end
        invariant
            start <= next <= end,
            cpus@ == insert_range(old(cpus)@, start, next),
        decreases end - next,
    {
        next += 1;
        insert_ascending(cpus, next);
    }
}

/// Parse Linux CPU-list syntax into sorted, unique logical CPU IDs.
///
/// Valid inputs include `0`, `0-3`, and `0-3,8-11`. Whitespace around the
/// complete list is ignored; whitespace inside the syntax is rejected.
pub fn parse_cpu_list(input: &str) -> (out: Result<Vec<u32>, CpuListParseError>)
    ensures
        cpu_list_view(out) == cpu_list(input@),
        out matches Ok(cpus) ==> ascending(cpus@) && cpus@.len() > 0,
{
    let trimmed = trim_text(input);
    if trimmed.unicode_len() == 0 {
        return Err(CpuListParseError::Empty);
    }
    let items = split_text(trimmed, ',');
    let ghost all = split(trim(input@), ',');
    let mut cpus: Vec<u32> = Vec::new();
    let mut position: usize = 0;
    proof {
        lemma_split_not_empty(trim(input@), ',');
        assert(all.take(0) =~= Seq::empty());
    }
    while position < items.len()
        invariant
            position <= items@.len(),
            all == views(items@),
            all == split(trim(input@), ','),
            trim(input@).len() > 0,
            cpu_items(all.take(position as int)) == Ok::<Seq<u32>, CpuListErrorView>(cpus@),
            ascending(cpus@),
            position > 0 ==> cpus@.len() > 0,
        decreases items.len() - position,
    {
        let ghost before = all.take(position as int);
        let ghost after = all.take(position + 1);
        assert(after.drop_last() =~= before);
        assert(after.last() == items@[position as int]@);
        match parse_cpu_item(items[position].as_str(), position) {
            Err(e) => {
                proof {
                    lemma_items_error(all, position + 1);
                }
                return Err(e);
            },
            Ok((start, end)) => {
                proof {
                    lemma_insert_range(cpus@, start, end);
                }
                extend_with_range(&mut cpus, start, end);
                if cpus.len() > MAX_EXPANDED_CPU_IDS {
                    proof {
                        lemma_items_error(all, position + 1);
                    }
                    return Err(CpuListParseError::TooManyCpuIds { limit: MAX_EXPANDED_CPU_IDS });
                }
            },
        }
        position += 1;
    }
    assert(all.take(all.len() as int) =~= all);
    Ok(cpus)
}

/// An error among the first members is the error of the list.
proof fn lemma_items_error(items: Seq<Seq<char>>, k: int)
    requires
        0 <= k <= items.len(),
        cpu_items(items.take(k)) is Err,
    ensures
        cpu_items(items) == cpu_items(items.take(k)),
    decreases items.len() - k,
{
    if k == items.len() {
        assert(items.take(k) =~= items);
    } else {
        assert(items.take(k + 1).drop_last() =~= items.take(k));
        lemma_items_error(items, k + 1);
    }
}

/// The numbers of a range are there, in order, beside the others.
pub proof fn lemma_insert_range(s: Seq<u32>, start: u32, end: u32)
    requires
        ascending(s),
        start <= end,
    ensures
        ascending(insert_range(s, start, end)),
        insert_range(s, start, end).len() > 0,
        forall|y: u32| #[trigger] insert_range(s, start, end).contains(y) <==> s.contains(y)
            || start <= y <= end,
    decreases end,
{
    if start == end {
        crate::order::lemma_insert_number(s, end);
        assert(insert_number(s, end).contains(end));
    } else {
        lemma_insert_range(s, start, (end - 1) as u32);
        crate::order::lemma_insert_number(insert_range(s, start, (end - 1) as u32), end);
        assert(insert_range(s, start, end).contains(end));
    }
}

/// Interpretation of the Linux x86 `topology/core_type` value.
#[derive(Clone, Copy, Debug, PartialEq, Eq, Structural)]
pub enum CoreTypeInterpretation {
    /// Intel Core (`0x40`).
    Performance,
    /// Intel Atom (`0x20`).
    Efficiency,
    /// A syntactically valid value with no supported mapping.
    Unsupported(u32),
}

/// Syntax errors in a `topology/core_type` value.
#[derive(Clone, Debug, PartialEq, Eq)]
pub enum CoreTypeParseError {
    /// The value contains no syntax after trimming.
    Empty,
    /// The value is not a supported integer syntax.
    Invalid { value: String },
}

/// A `core_type` error by its contents.
pub enum CoreTypeErrorView {
    Empty,
    Invalid { value: Seq<char> },
}

impl View for CoreTypeParseError {
    type V = CoreTypeErrorView;

    open spec fn view(&self) -> CoreTypeErrorView {
        match self {
            CoreTypeParseError::Empty => CoreTypeErrorView::Empty,
            CoreTypeParseError::Invalid { value } => CoreTypeErrorView::Invalid { value: value@ },
        }
    }
}

/// The message of a `core_type` error.
pub open spec fn core_type_error_text(e: CoreTypeErrorView) -> Seq<char> {
    match e {
        CoreTypeErrorView::Empty => "core_type is empty"@,
        CoreTypeErrorView::Invalid { value } => "invalid core_type value `"@ + value + "`"@,
    }
}

impl CoreTypeParseError {
    /// The message shown to the user.
    pub fn message(&self) -> (out: String)
        ensures
            out@ == core_type_error_text(self@),
    {
        match self {
            CoreTypeParseError::Empty => "core_type is empty".to_owned(),
            CoreTypeParseError::Invalid { value } => {
                "invalid core_type value `".to_owned().concat(value.as_str()).concat("`")
            },
        }
    }
}

/// The number that a `core_type` text denotes: hexadecimal behind `0x` or
/// `0X`, decimal otherwise.
pub open spec fn core_type_number(text: Seq<char>) -> Option<nat> {
    if starts_with(text, "0x"@) || starts_with(text, "0X"@) {
        hex_value(text.skip(2))
    } else {
        unsigned_value(text)
    }
}

/// What a raw `core_type` value means.
pub open spec fn core_type(input: Seq<char>) -> Result<CoreTypeInterpretation, CoreTypeErrorView> {
    let text = trim(input);
    if text.len() == 0 {
        Err(CoreTypeErrorView::Empty)
    } else {
        match core_type_number(text) {
            Some(n) => if n == 0x40 {
                Ok(CoreTypeInterpretation::Performance)
            } else if n == 0x20 {
                Ok(CoreTypeInterpretation::Efficiency)
            } else if n <= u32::MAX {
                Ok(CoreTypeInterpretation::Unsupported(n as u32))
            } else {
                Err(CoreTypeErrorView::Invalid { value: text })
            },
            None => Err(CoreTypeErrorView::Invalid { value: text }),
        }
    }
}

/// Interpret the x86 kernel's raw `topology/core_type` value.
///
/// Linux exposes the Intel CPUID leaf 0x1A core-type byte as a decimal sysfs
/// value on kernels which provide this optional attribute. Intel defines
/// `0x40` (64) as Core and `0x20` (32) as Atom. No other numeric value is
/// inferred here: future or vendor-specific values remain unsupported.
pub fn interpret_core_type(input: &str) -> (out: Result<CoreTypeInterpretation, CoreTypeParseError>)
    ensures
        match out {
            Ok(interpretation) => core_type(input@) == Ok::<
                CoreTypeInterpretation,
                CoreTypeErrorView,
            >(interpretation),
            Err(e) => core_type(input@) == Err::<CoreTypeInterpretation, CoreTypeErrorView>(e@),
        },
{
    let text = trim_text(input);
    if text.unicode_len() == 0 {
        return Err(CoreTypeParseError::Empty);
    }
    proof {
        reveal_strlit("0x");
        reveal_strlit("0X");
    }
    let parsed: Option<u32> = match without_prefix(text, "0x") {
        Some(hex) => parse_hex_u32(hex),
        None => match without_prefix(text, "0X") {
            Some(hex) => parse_hex_u32(hex),
            None => parse_u32(text),
        },
    };
    match parsed {
        Some(0x40) => Ok(CoreTypeInterpretation::Performance),
        Some(0x20) => Ok(CoreTypeInterpretation::Efficiency),
        Some(value) => Ok(CoreTypeInterpretation::Unsupported(value)),
        None => Err(CoreTypeParseError::Invalid { value: text.to_owned() }),
    }
}

/// The maximal runs of consecutive numbers in an ascending sequence.
pub open spec fn runs(s: Seq<u32>) -> Seq<(u32, u32)>
    decreases s.len(),
{
    if s.len() == 0 {
        Seq::empty()
    } else {
        let front = runs(s.drop_last());
        if front.len() > 0 && front.last().1 + 1 == s.last() {
            front.drop_last().push((front.last().0, s.last()))
        } else {
            front.push((s.last(), s.last()))
        }
    }
}

/// One run in CPU-list syntax.
pub open spec fn run_text(run: (u32, u32)) -> Seq<char> {
    if run.0 == run.1 {
        decimal(run.0 as nat)
    } else {
        decimal(run.0 as nat) + "-"@ + decimal(run.1 as nat)
    }
}

/// The CPU-list notation of a set of CPUs.
pub open spec fn cpu_list_text(cpus: Seq<u32>) -> Seq<char> {
    join(runs(sorted_set(cpus)).map_values(|run: (u32, u32)| run_text(run)), ","@)
}

fn format_run(start: u32, end: u32) -> (out: String)
    ensures
        out@ == run_text((start, end)),
{
    let first = decimal_text(start as u64);
    if start == end {
        first
    } else {
        first.concat("-").concat(decimal_text(end as u64).as_str())
    }
}

/// Format sorted or unsorted CPU IDs using compact Linux CPU-list syntax.
pub fn format_cpu_list(cpus: &Vec<u32>) -> (out: String)
    ensures
        out@ == cpu_list_text(cpus@),
{
    broadcast use group_views;

    let sorted = sorted_unique(cpus);
    let ghost s = sorted@;
    let ghost text = |run: (u32, u32)| run_text(run);
    let mut output: Vec<String> = Vec::new();
    let mut index: usize = 0;
    assert(s.take(0) =~= Seq::empty());
    assert(views(output@) =~= runs(s.take(0)).map_values(text));
    while index < sorted.len()
        invariant
            index <= sorted@.len(),
            s == sorted@,
            s == sorted_set(cpus@),
            ascending(s),
            text == (|run: (u32, u32)| run_text(run)),
            views(output@) == runs(s.take(index as int)).map_values(text),
            index < s.len() && index > 0 ==> runs(s.take(index as int)).last().1 + 1
                < s[index as int],
        decreases sorted.len() - index,
    {
        let start: u32 = sorted[index];
        let mut end: u32 = start;
        let ghost done = runs(s.take(index as int));
        proof {
            assert(s.take(index + 1).drop_last() =~= s.take(index as int));
            assert(s.take(index + 1).last() == start);
            if index == 0 {
                assert(done =~= Seq::empty());
            }
        }
        while index + 1 < sorted.len() && end < u32::MAX && sorted[index + 1] == end + 1
            invariant
                index < sorted@.len(),
                s == sorted@,
                start <= end,
                s[index as int] == end,
                runs(s.take(index + 1)) == done.push((start, end)),
            decreases sorted.len() - index,
        {
            assert(s.take(index + 2).drop_last() =~= s.take(index + 1));
            assert(done.push((start, end)).drop_last() =~= done);
            index += 1;
            end = sorted[index];
        }
        let ghost before = output@;
        output.push(format_run(start, end));
        index += 1;
        assert(runs(s.take(index as int)).map_values(text) =~= done.map_values(text).push(
            text((start, end)),
        ));
        proof {
            if index < s.len() {
                assert(s[index - 1] < s[index as int]);
            }
        }
    }
    assert(s.take(s.len() as int) =~= s);
    join_text(&output, ",")
}

proof fn lemma_run_item(run: (u32, u32), position: int)
    requires
        run.0 <= run.1,
        run.1 - run.0 + 1 <= MAX_EXPANDED_CPU_IDS,
    ensures
        cpu_item(run_text(run), position) == Ok::<(u32, u32), CpuListErrorView>(run),
        run_text(run).len() > 0,
        is_digit(run_text(run)[0]),
        is_digit(run_text(run).last()),
        forall|i: int| 0 <= i < run_text(run).len() ==> run_text(run)[i] != ',',
{
    reveal_strlit("-");
    let a = decimal(run.0 as nat);
    let b = decimal(run.1 as nat);
    crate::text::lemma_decimal(run.0 as nat);
    crate::text::lemma_decimal(run.1 as nat);
    assert(forall|i: int| 0 <= i < a.len() ==> is_digit(#[trigger] a[i]));
    assert(forall|i: int| 0 <= i < b.len() ==> is_digit(#[trigger] b[i]));
    if run.0 == run.1 {
        lemma_split_no_separator(a, '-');
        assert(is_digit(a[a.len() - 1]));
    } else {
        let parts = seq![a, b];
        assert("-"@ =~= seq!['-']);
        assert(parts.drop_last() =~= seq![a]);
        assert(join(parts.drop_last(), "-"@) == a);
        assert(join(parts, seq!['-']) == run_text(run));
        assert forall|k: int, i: int|
            0 <= k < parts.len() && 0 <= i < parts[k].len() implies #[trigger] parts[k][i]
            != '-' by {
            if k == 0 {
                assert(is_digit(a[i]));
            } else {
                assert(is_digit(b[i]));
            }
        }
        lemma_split_join(parts, '-');
        assert(run_text(run)[0] == a[0]);
        assert(run_text(run).last() == b[b.len() - 1]);
        assert forall|i: int| 0 <= i < run_text(run).len() implies run_text(run)[i] != ',' by {
            if i < a.len() {
                assert(run_text(run)[i] == a[i]);
            } else if i > a.len() {
                assert(run_text(run)[i] == b[i - a.len() - 1]);
            }
        }
    }
}

spec fn run_texts(s: Seq<u32>) -> Seq<Seq<char>> {
    runs(s).map_values(|run: (u32, u32)| run_text(run))
}

proof fn lemma_runs_parse(s: Seq<u32>)
    requires
        ascending(s),
        s.len() <= MAX_EXPANDED_CPU_IDS,
    ensures
        cpu_items(run_texts(s)) == Ok::<Seq<u32>, CpuListErrorView>(s),
        s.len() > 0 ==> runs(s).len() > 0 && runs(s).last().1 == s.last() && runs(s).last().1
            - runs(s).last().0 + 1 <= s.len(),
        forall|k: int|
            0 <= k < runs(s).len() ==> (#[trigger] runs(s)[k]).0 <= runs(s)[k].1 && runs(s)[k].1
                - runs(s)[k].0 + 1 <= s.len(),
    decreases s.len(),
{
    let texts = run_texts(s);
    if s.len() == 0 {
        assert(s =~= Seq::empty());
        assert(texts =~= Seq::empty());
    } else {
        let front = s.drop_last();
        let x = s.last();
        lemma_runs_parse(front);
        let fr = runs(front);
        let ft = run_texts(front);
        assert(front.push(x) =~= s);
        assert(insert_number(front, x) == s) by {
            crate::order::lemma_sorted_set_of_ascending(s);
            crate::order::lemma_sorted_set_of_ascending(front);
        }
        if fr.len() > 0 && fr.last().1 + 1 == x {
            let a = fr.last().0;
            let e = fr.last().1;
            assert(fr[fr.len() - 1] == (a, e));
            assert(ft.drop_last() =~= texts.drop_last());
            assert(ft.last() == run_text((a, e)));
            assert(texts.last() == run_text((a, x)));
            lemma_run_item((a, e), ft.len() - 1);
            lemma_run_item((a, x), texts.len() - 1);
            let p = cpu_items(ft.drop_last())->Ok_0;
            assert(insert_range(p, a, e) == front);
            assert(insert_range(p, a, x) == insert_number(insert_range(p, a, e), x));
        } else {
            assert(texts.drop_last() =~= ft);
            assert(texts.last() == run_text((x, x)));
            lemma_run_item((x, x), texts.len() - 1);
            assert(insert_range(front, x, x) == insert_number(front, x));
        }
    }
}

proof fn lemma_join_ends(parts: Seq<Seq<char>>, separator: Seq<char>)
    requires
        parts.len() > 0,
        forall|k: int| 0 <= k < parts.len() ==> (#[trigger] parts[k]).len() > 0,
    ensures
        join(parts, separator).len() > 0,
        join(parts, separator)[0] == parts[0][0],
        join(parts, separator).last() == parts.last().last(),
    decreases parts.len(),
{
    if parts.len() > 1 {
        lemma_join_ends(parts.drop_last(), separator);
        assert(parts[parts.len() - 1].len() > 0);
    }
}

/// Parsing a formatted list gives back the distinct CPUs in ascending order,
/// for every non-empty set of CPUs that a list may hold.
pub proof fn cpu_list_round_trip(cpus: Seq<u32>)
    requires
        0 < sorted_set(cpus).len() <= MAX_EXPANDED_CPU_IDS,
    ensures
        cpu_list(cpu_list_text(cpus)) == Ok::<Seq<u32>, CpuListErrorView>(sorted_set(cpus)),
{
    reveal_strlit(",");
    let s = sorted_set(cpus);
    let texts = run_texts(s);
    let text = cpu_list_text(cpus);
    crate::order::lemma_sorted_set(cpus);
    lemma_runs_parse(s);
    assert(","@ =~= seq![',']);
    assert(texts.len() == runs(s).len());
    assert forall|k: int| 0 <= k < texts.len() implies (#[trigger] texts[k]).len() > 0 && is_digit(
        texts[k][0],
    ) && is_digit(texts[k].last()) by {
        lemma_run_item(runs(s)[k], k);
    }
    assert forall|k: int, i: int|
        0 <= k < texts.len() && 0 <= i < texts[k].len() implies #[trigger] texts[k][i] != ',' by {
        lemma_run_item(runs(s)[k], k);
    }
    lemma_split_join(texts, ',');
    lemma_join_ends(texts, ","@);
    assert(is_digit(texts[0][0]) && is_digit(texts[texts.len() - 1].last()));
    assert(text == join(texts, ","@));
    assert(trim(text) == text);
}

/// A parsed list holds exactly the CPUs that its members cover.
pub proof fn cpu_list_covers(input: Seq<char>, cpu: u32)
    requires
        cpu_list(input) is Ok,
    ensures
        ascending(cpu_list(input)->Ok_0),
        cpu_list(input)->Ok_0.contains(cpu) <==> exists|k: int|
            0 <= k < split(trim(input), ',').len() && covers(
                #[trigger] split(trim(input), ',')[k],
                cpu,
            ),
{
    let items = split(trim(input), ',');
    lemma_items_cover(items, cpu);
}

/// Whether a list member names a CPU.
pub open spec fn covers(item: Seq<char>, cpu: u32) -> bool {
    cpu_item(item, 0) is Ok && cpu_item(item, 0)->Ok_0.0 <= cpu <= cpu_item(item, 0)->Ok_0.1
}

proof fn lemma_items_cover(items: Seq<Seq<char>>, cpu: u32)
    requires
        cpu_items(items) is Ok,
    ensures
        ascending(cpu_items(items)->Ok_0),
        cpu_items(items)->Ok_0.contains(cpu) <==> exists|k: int|
            0 <= k < items.len() && covers(#[trigger] items[k], cpu),
    decreases items.len(),
{
    if items.len() > 0 {
        let front = items.drop_last();
        lemma_items_cover(front, cpu);
        let (start, end) = cpu_item(items.last(), items.len() - 1)->Ok_0;
        assert(cpu_item(items.last(), 0) == cpu_item(items.last(), items.len() - 1));
        let before = cpu_items(front)->Ok_0;
        lemma_item_bounds(items.last(), items.len() - 1);
        lemma_insert_range(before, start, end);
        if before.contains(cpu) {
            let k = choose|k: int| 0 <= k < front.len() && covers(#[trigger] front[k], cpu);
            assert(covers(items[k], cpu));
        }
        if start <= cpu <= end {
            assert(covers(items[items.len() - 1], cpu));
        }
        if exists|k: int| 0 <= k < items.len() && covers(#[trigger] items[k], cpu) {
            let k = choose|k: int| 0 <= k < items.len() && covers(#[trigger] items[k], cpu);
            if k < front.len() {
                assert(covers(front[k], cpu));
            }
        }
        assert(insert_range(before, start, end).contains(cpu) <==> before.contains(cpu) || start
            <= cpu <= end);
    }
}

proof fn lemma_item_bounds(item: Seq<char>, position: int)
    requires
        cpu_item(item, position) is Ok,
    ensures
        cpu_item(item, position)->Ok_0.0 <= cpu_item(item, position)->Ok_0.1,
{
}

} // verus!
