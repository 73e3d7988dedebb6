//! Ascending sets of numbers and stable sorting.
use vstd::prelude::*;

verus! {

pub open spec fn ascending(s: Seq<u32>) -> bool {
    forall|i: int, j: int| 0 <= i < j < s.len() ==> s[i] < s[j]
}

/// A number put at its place in an ascending sequence, unless it is there.
pub open spec fn insert_number(s: Seq<u32>, x: u32) -> Seq<u32>
    decreases s.len(),
{
    if s.len() == 0 {
        seq![x]
    } else if s.last() < x {
        s.push(x)
    } else if s.last() == x {
        s
    } else {
        insert_number(s.drop_last(), x).push(s.last())
    }
}

/// The distinct numbers of a sequence, in ascending order.
pub open spec fn sorted_set(s: Seq<u32>) -> Seq<u32>
    decreases s.len(),
{
    if s.len() == 0 {
        s
    } else {
        insert_number(sorted_set(s.drop_last()), s.last())
    }
}

/// An inserted number is there, in order, beside the others.
pub proof fn lemma_insert_number(s: Seq<u32>, x: u32)
    requires
        ascending(s),
    ensures
        ascending(insert_number(s, x)),
        insert_number(s, x).len() <= s.len() + 1,
        forall|y: u32| #[trigger] insert_number(s, x).contains(y) <==> s.contains(y) || y == x,
    decreases s.len(),
{
    let r = insert_number(s, x);
    if s.len() == 0 {
        assert(r[0] == x);
        assert forall|y: u32| #[trigger] r.contains(y) implies y == x by {}
        assert(r.contains(x));
    } else if s.last() < x {
        assert(r[s.len() as int] == x);
        assert forall|y: u32| s.contains(y) || y == x implies #[trigger] r.contains(y) by {
            if s.contains(y) {
                let i = choose|i: int| 0 <= i < s.len() && s[i] == y;
                assert(r[i] == y);
            }
        }
    } else if s.last() == x {
        assert(s[s.len() - 1] == x);
    } else {
        let front = s.drop_last();
        lemma_insert_number(front, x);
        let f = insert_number(front, x);
        assert forall|i: int, j: int| 0 <= i < j < r.len() implies r[i] < r[j] by {
            if j == r.len() - 1 {
                assert(f.contains(f[i]));
                if front.contains(f[i]) {
                    let k = choose|k: int| 0 <= k < front.len() && front[k] == f[i];
                    assert(s[k] < s[s.len() - 1]);
                }
            }
        }
        assert forall|y: u32| #[trigger] r.contains(y) <==> s.contains(y) || y == x by {
            if r.contains(y) {
                let i = choose|i: int| 0 <= i < r.len() && r[i] == y;
                if i < f.len() {
                    assert(f.contains(y));
                    if front.contains(y) {
                        let k = choose|k: int| 0 <= k < front.len() && front[k] == y;
                        assert(s[k] == y);
                    }
                } else {
                    assert(s[s.len() - 1] == y);
                }
            }
            if s.contains(y) || y == x {
                if y == s.last() {
                    assert(r[r.len() - 1] == y);
                } else {
                    if s.contains(y) {
                        let k = choose|k: int| 0 <= k < s.len() && s[k] == y;
                        assert(front[k] == y);
                    }
                    assert(f.contains(y));
                    let i = choose|i: int| 0 <= i < f.len() && f[i] == y;
                    assert(r[i] == y);
                }
            }
        }
    }
}

/// The sorted set is ascending and holds the same numbers.
pub proof fn lemma_sorted_set(s: Seq<u32>)
    ensures
        ascending(sorted_set(s)),
        sorted_set(s).len() <= s.len(),
        forall|y: u32| #[trigger] sorted_set(s).contains(y) <==> s.contains(y),
    decreases s.len(),
{
    if s.len() > 0 {
        let front = s.drop_last();
        lemma_sorted_set(front);
        lemma_insert_number(sorted_set(front), s.last());
        assert forall|y: u32| #[trigger] sorted_set(s).contains(y) <==> s.contains(y) by {
            if s.contains(y) {
                let k = choose|k: int| 0 <= k < s.len() && s[k] == y;
                if k < front.len() {
                    assert(front[k] == y);
                }
            }
            if front.contains(y) {
                let k = choose|k: int| 0 <= k < front.len() && front[k] == y;
                assert(s[k] == y);
            }
            if y == s.last() {
                assert(s[s.len() - 1] == y);
            }
        }
    }
}

/// An ascending sequence is its own sorted set.
pub proof fn lemma_sorted_set_of_ascending(s: Seq<u32>)
    requires
        ascending(s),
    ensures
        sorted_set(s) == s,
    decreases s.len(),
{
    if s.len() > 0 {
        let front = s.drop_last();
        lemma_sorted_set_of_ascending(front);
        assert(insert_number(front, s.last()) == s) by {
            if front.len() > 0 {
                assert(s[front.len() - 1] < s[s.len() - 1]);
                assert(front.last() < s.last());
            }
            assert(front.push(s.last()) =~= s);
            assert(seq![s.last()] =~= front.push(s.last()) || front.len() > 0);
        }
    }
}

/// Where `insert_number` puts a number.
proof fn lemma_insert_number_at(s: Seq<u32>, x: u32, i: int)
    requires
        0 <= i <= s.len(),
        forall|k: int| i <= k < s.len() ==> s[k] > x,
        i > 0 ==> s[i - 1] <= x,
    ensures
        i > 0 && s[i - 1] == x ==> insert_number(s, x) == s,
        i == 0 || s[i - 1] < x ==> insert_number(s, x) == s.insert(i, x),
    decreases s.len(),
{
    if i == s.len() {
        if s.len() == 0 {
            assert(s.insert(0, x) =~= seq![x]);
        } else {
            assert(s.insert(i, x) =~= s.push(x));
        }
    } else {
        lemma_insert_number_at(s.drop_last(), x, i);
        assert(s.insert(i, x) =~= s.drop_last().insert(i, x).push(s.last()));
        assert(s =~= s.drop_last().push(s.last()));
    }
}

/// Put a number at its place in an ascending vector, unless it is there.
pub fn insert_ascending(v: &mut Vec<u32>, x: u32)
    ensures
        final(v)@ == insert_number(old(v)@, x),
{
    let mut i: usize = v.len();
    while i > 0 && v[i - 1] > x
        invariant
            i <= v@.len(),
            v@ == old(v)@,
            forall|k: int| i <= k < v@.len() ==> v@[k] > x,
        decreases i,
    {
        i -= 1;
    }
    proof {
        lemma_insert_number_at(v@, x, i as int);
    }
    if i > 0 && v[i - 1] == x {
    } else {
        v.insert(i, x);
    }
}

/// The distinct numbers of a vector, in ascending order.
pub fn sorted_unique(v: &Vec<u32>) -> (out: Vec<u32>)
    ensures
        out@ == sorted_set(v@),
        ascending(out@),
{
    let mut out: Vec<u32> = Vec::new();
    let mut i: usize = 0;
    assert(v@.take(0) =~= Seq::empty());
    while i < v.len()
        invariant
            i <= v@.len(),
            out@ == sorted_set(v@.take(i as int)),
        decreases v.len() - i,
    {
        assert(v@.take(i + 1).drop_last() =~= v@.take(i as int));
        insert_ascending(&mut out, v[i]);
        i += 1;
    }
    assert(v@.take(v@.len() as int) =~= v@);
    proof {
        lemma_sorted_set(v@);
    }
    out
}

/// Whether a number is among some.
pub fn contains_number(v: &Vec<u32>, x: u32) -> (found: bool)
    ensures
        found == v@.contains(x),
{
    let mut i: usize = 0;
    while i < v.len()
        invariant
            i <= v@.len(),
            forall|k: int| 0 <= k < i ==> v@[k] != x,
        decreases v.len() - i,
    {
        if v[i] == x {
            assert(v@[i as int] == x);
            return true;
        }
        i += 1;
    }
    false
}

/// Numbers once more.
pub fn copy_numbers(v: &Vec<u32>) -> (out: Vec<u32>)
    ensures
        out@ == v@,
{
    let out = v.clone();
    assert(out@ =~= v@);
    out
}

/// An item put in front of the first item that comes after it.
pub open spec fn insert_sorted<T>(s: Seq<T>, x: T, before: spec_fn(T, T) -> bool) -> Seq<T>
    decreases s.len(),
{
    if s.len() == 0 || !before(x, s.last()) {
        s.push(x)
    } else {
        insert_sorted(s.drop_last(), x, before).push(s.last())
    }
}

/// The items in order; items of equal rank keep the order they came in.
pub open spec fn stable_sorted<T>(s: Seq<T>, before: spec_fn(T, T) -> bool) -> Seq<T>
    decreases s.len(),
{
    if s.len() == 0 {
        s
    } else {
        insert_sorted(stable_sorted(s.drop_last(), before), s.last(), before)
    }
}

/// No item stands behind one that it comes before.
pub open spec fn in_order<T>(s: Seq<T>, before: spec_fn(T, T) -> bool) -> bool {
    forall|i: int, j: int| 0 <= i < j < s.len() ==> !before(#[trigger] s[j], #[trigger] s[i])
}

/// A strict order in which "neither comes before the other" is transitive.
pub open spec fn strict_weak_order<T>(before: spec_fn(T, T) -> bool) -> bool {
    &&& forall|a: T, b: T| #[trigger] before(a, b) ==> !before(b, a)
    &&& forall|a: T, b: T, c: T|
        !(#[trigger] before(a, b)) && !(#[trigger] before(b, c)) ==> !before(a, c)
}

proof fn lemma_insert_sorted<T>(s: Seq<T>, x: T, before: spec_fn(T, T) -> bool)
    ensures
        insert_sorted(s, x, before).to_multiset() == s.to_multiset().insert(x),
        insert_sorted(s, x, before).len() == s.len() + 1,
    decreases s.len(),
{
    broadcast use vstd::seq_lib::group_to_multiset_ensures;

    if s.len() == 0 || !before(x, s.last()) {
    } else {
        lemma_insert_sorted(s.drop_last(), x, before);
        assert(s =~= s.drop_last().push(s.last()));
        assert(insert_sorted(s, x, before).to_multiset() =~= s.to_multiset().insert(x));
    }
}

/// Stable sorting rearranges the items.
pub proof fn lemma_stable_sorted_permutes<T>(s: Seq<T>, before: spec_fn(T, T) -> bool)
    ensures
        stable_sorted(s, before).to_multiset() == s.to_multiset(),
        stable_sorted(s, before).len() == s.len(),
    decreases s.len(),
{
    broadcast use vstd::seq_lib::group_to_multiset_ensures;

    if s.len() > 0 {
        lemma_stable_sorted_permutes(s.drop_last(), before);
        lemma_insert_sorted(stable_sorted(s.drop_last(), before), s.last(), before);
        assert(s =~= s.drop_last().push(s.last()));
    }
}

proof fn lemma_insert_sorted_order<T>(s: Seq<T>, x: T, before: spec_fn(T, T) -> bool)
    requires
        strict_weak_order(before),
        in_order(s, before),
    ensures
        in_order(insert_sorted(s, x, before), before),
        forall|i: int|
            0 <= i < insert_sorted(s, x, before).len() ==> (#[trigger] insert_sorted(s, x, before)[i]
                == x || s.contains(insert_sorted(s, x, before)[i])),
    decreases s.len(),
{
    let r = insert_sorted(s, x, before);
    if s.len() == 0 || !before(x, s.last()) {
        assert forall|i: int, j: int| 0 <= i < j < r.len() implies !before(
            #[trigger] r[j],
            #[trigger] r[i],
        ) by {
            if j == r.len() - 1 {
                assert(r[i] == s[i]);
                if i < s.len() - 1 {
                    assert(!before(s[s.len() - 1], s[i]));
                    assert(!before(x, s.last()));
                    assert(!before(x, s[i]));
                }
            }
        }
    } else {
        let front = s.drop_last();
        lemma_insert_sorted_order(front, x, before);
        let f = insert_sorted(front, x, before);
        assert forall|i: int, j: int| 0 <= i < j < r.len() implies !before(
            #[trigger] r[j],
            #[trigger] r[i],
        ) by {
            if j < r.len() - 1 {
                assert(r[j] == f[j] && r[i] == f[i]);
            } else {
                assert(r[i] == f[i]);
                if f[i] == x {
                    assert(!before(s.last(), x));
                } else {
                    let k = choose|k: int| 0 <= k < front.len() && front[k] == f[i];
                    assert(!before(s[s.len() - 1], s[k]));
                }
            }
        }
        assert forall|i: int| 0 <= i < r.len() implies (#[trigger] r[i] == x || s.contains(r[i])) by {
            if i < f.len() {
                assert(r[i] == f[i]);
                if f[i] != x {
                    let k = choose|k: int| 0 <= k < front.len() && front[k] == f[i];
                    assert(s[k] == r[i]);
                }
            } else {
                assert(s[s.len() - 1] == r[i]);
            }
        }
    }
}

/// Stable sorting puts the items in order.
pub proof fn lemma_stable_sorted_order<T>(s: Seq<T>, before: spec_fn(T, T) -> bool)
    requires
        strict_weak_order(before),
    ensures
        in_order(stable_sorted(s, before), before),
    decreases s.len(),
{
    if s.len() > 0 {
        lemma_stable_sorted_order(s.drop_last(), before);
        lemma_insert_sorted_order(stable_sorted(s.drop_last(), before), s.last(), before);
    }
}

/// An item goes behind the last one that it does not come before.
pub proof fn lemma_insert_sorted_at<T>(s: Seq<T>, x: T, before: spec_fn(T, T) -> bool, i: int)
    requires
        0 <= i <= s.len(),
        forall|k: int| i <= k < s.len() ==> before(x, #[trigger] s[k]),
        i > 0 ==> !before(x, s[i - 1]),
    ensures
        insert_sorted(s, x, before) == s.insert(i, x),
    decreases s.len(),
{
    if i == s.len() {
        assert(s.insert(i, x) =~= s.push(x));
    } else {
        assert(before(x, s[s.len() - 1]));
        lemma_insert_sorted_at(s.drop_last(), x, before, i);
        assert(s.insert(i, x) =~= s.drop_last().insert(i, x).push(s.last()));
    }
}

/// Sort by a given order; items of equal rank keep the order they came in.
pub fn stable_sort<T, F: Fn(&T, &T) -> bool>(
    items: Vec<T>,
    is_before: F,
    Ghost(before): Ghost<spec_fn(T, T) -> bool>,
) -> (out: Vec<T>)
    requires
        forall|a: &T, b: &T| #[trigger] is_before.requires((a, b)),
        forall|a: &T, b: &T, r: bool| #[trigger]
            is_before.ensures((a, b), r) ==> r == before(*a, *b),
    ensures
        out@ == stable_sorted(items@, before),
{
    let mut rest = items;
    let mut out: Vec<T> = Vec::new();
    let ghost all = items@;
    let ghost mut done: int = 0;
    assert(all.take(0) =~= Seq::empty());
    assert(all.skip(0) =~= all);
    while rest.len() > 0
        invariant
            forall|a: &T, b: &T| #[trigger] is_before.requires((a, b)),
            forall|a: &T, b: &T, r: bool| #[trigger]
                is_before.ensures((a, b), r) ==> r == before(*a, *b),
            0 <= done <= all.len(),
            rest@ == all.skip(done),
            out@ == stable_sorted(all.take(done), before),
        decreases rest.len(),
    {
        let x = rest.remove(0);
        let mut i: usize = out.len();
        while i > 0 && is_before(&x, &out[i - 1])
            invariant
                forall|a: &T, b: &T| #[trigger] is_before.requires((a, b)),
                forall|a: &T, b: &T, r: bool| #[trigger]
                    is_before.ensures((a, b), r) ==> r == before(*a, *b),
                i <= out@.len(),
                forall|k: int| i <= k < out@.len() ==> before(x, #[trigger] out@[k]),
            decreases i,
        {
            i -= 1;
        }
        proof {
            lemma_insert_sorted_at(out@, x, before, i as int);
            assert(all.take(done + 1).drop_last() =~= all.take(done));
            assert(all.take(done + 1).last() == x);
            assert(all.skip(done).remove(0) =~= all.skip(done + 1));
            done = done + 1;
        }
        out.insert(i, x);
    }
    assert(all.take(all.len() as int) =~= all);
    out
}

/// Sorting commutes with a projection that the order goes through.
pub proof fn lemma_stable_sorted_map<T, U>(
    s: Seq<T>,
    project: spec_fn(T) -> U,
    before: spec_fn(T, T) -> bool,
    projected: spec_fn(U, U) -> bool,
)
    requires
        forall|a: T, b: T| #[trigger] before(a, b) == projected(project(a), project(b)),
    ensures
        stable_sorted(s, before).map_values(project) == stable_sorted(
            s.map_values(project),
            projected,
        ),
    decreases s.len(),
{
    if s.len() == 0 {
        assert(s.map_values(project) =~= Seq::empty());
    } else {
        lemma_stable_sorted_map(s.drop_last(), project, before, projected);
        assert(s.map_values(project).drop_last() =~= s.drop_last().map_values(project));
        lemma_insert_sorted_map(
            stable_sorted(s.drop_last(), before),
            s.last(),
            project,
            before,
            projected,
        );
    }
}

proof fn lemma_insert_sorted_map<T, U>(
    s: Seq<T>,
    x: T,
    project: spec_fn(T) -> U,
    before: spec_fn(T, T) -> bool,
    projected: spec_fn(U, U) -> bool,
)
    requires
        forall|a: T, b: T| #[trigger] before(a, b) == projected(project(a), project(b)),
    ensures
        insert_sorted(s, x, before).map_values(project) == insert_sorted(
            s.map_values(project),
            project(x),
            projected,
        ),
    decreases s.len(),
{
    if s.len() == 0 || !before(x, s.last()) {
        assert(s.push(x).map_values(project) =~= s.map_values(project).push(project(x)));
    } else {
        lemma_insert_sorted_map(s.drop_last(), x, project, before, projected);
        assert(s.map_values(project).drop_last() =~= s.drop_last().map_values(project));
        let f = insert_sorted(s.drop_last(), x, before);
        assert(f.push(s.last()).map_values(project) =~= f.map_values(project).push(
            project(s.last()),
        ));
    }
}

/// A filtered sequence holds the items that pass.
pub proof fn lemma_filter_holds<T>(s: Seq<T>, keep: spec_fn(T) -> bool, x: T)
    ensures
        s.filter(keep).contains(x) <==> s.contains(x) && keep(x),
    decreases s.len(),
{
    reveal(Seq::filter);
    if s.len() > 0 {
        let front = s.drop_last();
        lemma_filter_holds(front, keep, x);
        if s.filter(keep).contains(x) {
            let i = choose|i: int| 0 <= i < s.filter(keep).len() && s.filter(keep)[i] == x;
            if i < front.filter(keep).len() {
                assert(front.filter(keep)[i] == x);
                let k = choose|k: int| 0 <= k < front.len() && front[k] == x;
                assert(s[k] == x);
            } else {
                assert(s[s.len() - 1] == x);
            }
        }
        if s.contains(x) && keep(x) {
            let k = choose|k: int| 0 <= k < s.len() && s[k] == x;
            if k < front.len() {
                assert(front[k] == x);
                let i = choose|i: int|
                    0 <= i < front.filter(keep).len() && front.filter(keep)[i] == x;
                assert(s.filter(keep)[i] == x);
            } else {
                assert(s.filter(keep)[s.filter(keep).len() - 1] == x);
            }
        }
    }
}

/// Sorting neither adds nor loses an item.
pub proof fn lemma_sorted_holds<T>(s: Seq<T>, before: spec_fn(T, T) -> bool, x: T)
    ensures
        stable_sorted(s, before).contains(x) <==> s.contains(x),
{
    broadcast use vstd::seq_lib::group_to_multiset_ensures;

    lemma_stable_sorted_permutes(s, before);
    assert(stable_sorted(s, before).contains(x) <==> stable_sorted(s, before).to_multiset().count(x)
        > 0);
    assert(s.contains(x) <==> s.to_multiset().count(x) > 0);
}

/// What is in order stays as it is when it is sorted.
pub proof fn lemma_sorted_is_fixed<T>(s: Seq<T>, before: spec_fn(T, T) -> bool)
    requires
        in_order(s, before),
    ensures
        stable_sorted(s, before) == s,
    decreases s.len(),
{
    if s.len() > 0 {
        let front = s.drop_last();
        assert(in_order(front, before)) by {
            assert forall|i: int, j: int| 0 <= i < j < front.len() implies !before(
                #[trigger] front[j],
                #[trigger] front[i],
            ) by {
                assert(!before(s[j], s[i]));
            }
        }
        lemma_sorted_is_fixed(front, before);
        if front.len() > 0 {
            assert(!before(s[s.len() - 1], s[front.len() - 1]));
        }
        assert(front.push(s.last()) =~= s);
    }
}

/// Inserting adds one item and loses none.
pub proof fn lemma_insert_holds<T>(s: Seq<T>, x: T, before: spec_fn(T, T) -> bool)
    ensures
        forall|y: T| #[trigger]
            insert_sorted(s, x, before).contains(y) <==> s.contains(y) || y == x,
    decreases s.len(),
{
    let r = insert_sorted(s, x, before);
    if s.len() == 0 || !before(x, s.last()) {
        assert forall|y: T| #[trigger] r.contains(y) <==> s.contains(y) || y == x by {
            if r.contains(y) {
                let i = choose|i: int| 0 <= i < r.len() && r[i] == y;
                if i < s.len() {
                    assert(s[i] == y);
                }
            }
            if s.contains(y) {
                let i = choose|i: int| 0 <= i < s.len() && s[i] == y;
                assert(r[i] == y);
            }
            if y == x {
                assert(r[s.len() as int] == y);
            }
        }
    } else {
        let front = s.drop_last();
        lemma_insert_holds(front, x, before);
        let f = insert_sorted(front, x, before);
        assert forall|y: T| #[trigger] r.contains(y) <==> s.contains(y) || y == x by {
            if r.contains(y) {
                let i = choose|i: int| 0 <= i < r.len() && r[i] == y;
                if i < f.len() {
                    assert(f[i] == y);
                    assert(f.contains(y));
                    if front.contains(y) {
                        let k = choose|k: int| 0 <= k < front.len() && front[k] == y;
                        assert(s[k] == y);
                    }
                } else {
                    assert(s[s.len() - 1] == y);
                }
            }
            if s.contains(y) || y == x {
                if y == s.last() {
                    assert(r[r.len() - 1] == y);
                } else {
                    if s.contains(y) {
                        let k = choose|k: int| 0 <= k < s.len() && s[k] == y;
                        assert(front[k] == y);
                    }
                    assert(f.contains(y));
                    let i = choose|i: int| 0 <= i < f.len() && f[i] == y;
                    assert(r[i] == y);
                }
            }
        }
    }
}

/// A filter that everything passes changes nothing.
pub proof fn lemma_filter_all<T>(s: Seq<T>, keep: spec_fn(T) -> bool)
    requires
        forall|k: int| 0 <= k < s.len() ==> keep(#[trigger] s[k]),
    ensures
        s.filter(keep) == s,
    decreases s.len(),
{
    reveal(Seq::filter);
    if s.len() > 0 {
        let front = s.drop_last();
        assert forall|k: int| 0 <= k < front.len() implies keep(#[trigger] front[k]) by {
            assert(keep(s[k]));
        }
        lemma_filter_all(front, keep);
        assert(keep(s[s.len() - 1]));
        assert(front.push(s.last()) =~= s);
    }
}

/// Filtering commutes with sorting.
pub proof fn lemma_filter_of_sorted<T>(
    s: Seq<T>,
    before: spec_fn(T, T) -> bool,
    keep: spec_fn(T) -> bool,
)
    requires
        strict_weak_order(before),
    ensures
        stable_sorted(s, before).filter(keep) == stable_sorted(s.filter(keep), before),
    decreases s.len(),
{
    reveal(Seq::filter);
    if s.len() > 0 {
        let front = s.drop_last();
        lemma_filter_of_sorted(front, before, keep);
        lemma_stable_sorted_order(front, before);
        lemma_filter_insert(stable_sorted(front, before), s.last(), before, keep);
        if keep(s.last()) {
            assert(s.filter(keep).drop_last() =~= front.filter(keep));
        }
    }
}

proof fn lemma_filter_insert<T>(
    s: Seq<T>,
    x: T,
    before: spec_fn(T, T) -> bool,
    keep: spec_fn(T) -> bool,
)
    requires
        strict_weak_order(before),
        in_order(s, before),
    ensures
        insert_sorted(s, x, before).filter(keep) == if keep(x) {
            insert_sorted(s.filter(keep), x, before)
        } else {
            s.filter(keep)
        },
    decreases s.len(),
{
    reveal(Seq::filter);
    if s.len() == 0 || !before(x, s.last()) {
        assert(s.push(x).drop_last() =~= s);
        if keep(x) {
            let f = s.filter(keep);
            if f.len() > 0 {
                lemma_filter_holds(s, keep, f.last());
                assert(f.contains(f[f.len() - 1]));
                let k = choose|k: int| 0 <= k < s.len() && s[k] == f.last();
                if k < s.len() - 1 {
                    assert(!before(s[s.len() - 1], s[k]));
                    assert(!before(x, s[s.len() - 1]));
                    assert(!before(x, s[k]));
                }
            }
        }
    } else {
        let front = s.drop_last();
        assert(in_order(front, before)) by {
            assert forall|i: int, j: int| 0 <= i < j < front.len() implies !before(
                #[trigger] front[j],
                #[trigger] front[i],
            ) by {
                assert(!before(s[j], s[i]));
            }
        }
        lemma_filter_insert(front, x, before, keep);
        let f = insert_sorted(front, x, before);
        assert(f.push(s.last()).drop_last() =~= f);
        if keep(s.last()) {
            assert(s.filter(keep).drop_last() =~= front.filter(keep));
        } else if keep(x) {
            assert(s.filter(keep) =~= front.filter(keep));
        }
    }
}

} // verus!
