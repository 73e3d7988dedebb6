//! Lists of CPUs: what their members stand for, and which are refused.
use vstd::prelude::*;

use super::parser::{cpu_item, cpu_items, cpu_list, CpuListErrorView, MAX_EXPANDED_CPU_IDS};
use crate::text::{
    all_digits, digits_value, is_digit, join, lemma_split_join, lemma_split_no_separator, split,
    trim,
};

verus! {

/// A number stands for itself, where it fits.
pub proof fn numbers_stand_for_themselves(item: Seq<char>, position: int)
    requires
        all_digits(item),
    ensures
        digits_value(item) <= u32::MAX ==> cpu_item(item, position) == Ok::<
            (u32, u32),
            CpuListErrorView,
        >((digits_value(item) as u32, digits_value(item) as u32)),
        digits_value(item) > u32::MAX ==> cpu_item(item, position) is Err,
{
    assert forall|i: int| 0 <= i < item.len() implies #[trigger] item[i] != '-' by {
        assert(is_digit(item[i]));
    }
    lemma_split_no_separator(item, '-');
}

/// Two numbers with a hyphen between them stand for the numbers from the first
/// to the second. They are refused where one does not fit, where they descend,
/// and where they are too many.
pub proof fn ranges_stand_for_what_is_between(first: Seq<char>, last: Seq<char>, position: int)
    requires
        all_digits(first),
        all_digits(last),
    ensures
        ({
            let item = first + seq!['-'] + last;
            let a = digits_value(first);
            let b = digits_value(last);
            let fit = a <= u32::MAX && b <= u32::MAX;
            &&& cpu_item(item, position) is Ok <==> fit && a <= b && b - a < MAX_EXPANDED_CPU_IDS
            &&& cpu_item(item, position) is Ok ==> cpu_item(item, position)->Ok_0 == (
                a as u32,
                b as u32,
            )
            &&& fit && a > b ==> cpu_item(item, position) == Err::<(u32, u32), CpuListErrorView>(
                CpuListErrorView::DescendingRange { start: a as u32, end: b as u32 },
            )
        }),
{
    let item = first + seq!['-'] + last;
    let parts = seq![first, last];
    assert forall|k: int, i: int|
        0 <= k < parts.len() && 0 <= i < parts[k].len() implies #[trigger] parts[k][i] != '-' by {
        assert(is_digit(parts[k][i]));
    }
    lemma_split_join(parts, '-');
    assert(parts.drop_last() =~= seq![first]);
    assert(join(seq![first], seq!['-']) == first);
    assert(join(parts, seq!['-']) == item);
}

proof fn lemma_items(items: Seq<Seq<char>>, k: int)
    requires
        0 <= k < items.len(),
    ensures
        cpu_items(items) is Ok ==> cpu_item(items[k], k) is Ok,
    decreases items.len(),
{
    if k < items.len() - 1 {
        lemma_items(items.drop_last(), k);
        assert(items.drop_last()[k] == items[k]);
    }
}

proof fn lemma_items_refused(items: Seq<Seq<char>>)
    ensures
        cpu_items(items) matches Err(e) ==> (exists|k: int|
            0 <= k < items.len() && cpu_item(#[trigger] items[k], k) == Err::<
                (u32, u32),
                CpuListErrorView,
            >(e)) || e is TooManyCpuIds,
    decreases items.len(),
{
    if items.len() > 0 {
        let front = items.drop_last();
        lemma_items_refused(front);
        assert(items[items.len() - 1] == items.last());
        if cpu_items(front) is Err {
            let e = cpu_items(front)->Err_0;
            if exists|k: int|
                0 <= k < front.len() && cpu_item(#[trigger] front[k], k) == Err::<
                    (u32, u32),
                    CpuListErrorView,
                >(e) {
                let k = choose|k: int|
                    0 <= k < front.len() && cpu_item(#[trigger] front[k], k) == Err::<
                        (u32, u32),
                        CpuListErrorView,
                    >(e);
                assert(items[k] == front[k]);
            }
        }
    }
}

/// A list is refused as a whole where one of its members is, and for nothing
/// else but that it is empty or names too many CPUs.
pub proof fn lists_need_every_member(input: Seq<char>, k: int)
    ensures
        ({
            let items = split(trim(input), ',');
            &&& trim(input).len() == 0 <==> cpu_list(input) == Err::<Seq<u32>, CpuListErrorView>(
                CpuListErrorView::Empty,
            )
            &&& cpu_list(input) is Ok && 0 <= k < items.len() ==> cpu_item(items[k], k) is Ok
            &&& cpu_list(input) matches Err(e) ==> e is Empty || e is TooManyCpuIds || exists|
                m: int,
            |
                0 <= m < items.len() && cpu_item(#[trigger] items[m], m) == Err::<
                    (u32, u32),
                    CpuListErrorView,
                >(e)
        }),
{
    let items = split(trim(input), ',');
    lemma_items_refused(items);
    if 0 <= k < items.len() {
        lemma_items(items, k);
    }
}

} // verus!
