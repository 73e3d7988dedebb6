//! Which logical CPUs share a physical core.
use vstd::prelude::*;
use vstd::string::StringExecFns;

use super::evidence::{
    evidence, DetectionEvidence, EvidenceKind, EvidenceSource, EvidenceStrength, EvidenceView,
};
use super::parser::{cpu_list_text, format_cpu_list, CoreTypeInterpretation};
use super::sysfs::{
    note, optional_numbers, optional_string, CpuRecord, CpuRecordView, SysfsSnapshot,
    SysfsSnapshotView,
};
use super::types::{CoreClass, PhysicalCore, PhysicalCoreView};
use crate::float::Single;
use crate::order::copy_numbers;
use crate::text::{decimal, decimal_text, group_views, join, join_text, same_text, views};

verus! {

/// Two CPUs that one record, or two records without sibling masks, put into
/// the same physical core.
pub open spec fn directly_joined(snapshot: SysfsSnapshotView, a: u32, b: u32) -> bool {
    &&& snapshot.online_cpus.contains(a)
    &&& snapshot.online_cpus.contains(b)
    &&& (names_sibling(snapshot, a, b) || names_sibling(snapshot, b, a) || same_ids(snapshot, a, b))
}

/// The sibling mask of `a` names `b`.
pub open spec fn names_sibling(snapshot: SysfsSnapshotView, a: u32, b: u32) -> bool {
    exists|i: int|
        0 <= i < snapshot.records.len() && (#[trigger] snapshot.records[i]).id == a
            && snapshot.records[i].siblings is Some && snapshot.records[i].siblings->0.contains(b)
}

/// Neither CPU has a sibling mask, and both have the same package and core.
pub open spec fn same_ids(snapshot: SysfsSnapshotView, a: u32, b: u32) -> bool {
    exists|i: int, j: int|
        0 <= i < snapshot.records.len() && 0 <= j < snapshot.records.len() && (
        #[trigger] snapshot.records[i]).id == a && (#[trigger] snapshot.records[j]).id == b
            && equal_ids(snapshot.records[i], snapshot.records[j])
}

pub open spec fn equal_ids(a: CpuRecordView, b: CpuRecordView) -> bool {
    &&& a.siblings is None
    &&& b.siblings is None
    &&& a.package_id is Some
    &&& a.core_id is Some
    &&& a.package_id == b.package_id
    &&& a.core_id == b.core_id
}

/// A chain of CPUs in which each is directly joined with the next.
pub open spec fn is_chain(snapshot: SysfsSnapshotView, chain: Seq<u32>) -> bool {
    forall|i: int, j: int|
        0 <= i < chain.len() && j == i + 1 && j < chain.len() ==> directly_joined(
            snapshot,
            #[trigger] chain[i],
            #[trigger] chain[j],
        )
}

pub open spec fn chain_between(snapshot: SysfsSnapshotView, chain: Seq<u32>, a: u32, b: u32) -> bool {
    chain.len() > 0 && chain[0] == a && chain.last() == b && is_chain(snapshot, chain)
}

/// Two CPUs belong to one physical core where a chain leads from one to the
/// other.
pub open spec fn same_core(snapshot: SysfsSnapshotView, a: u32, b: u32) -> bool {
    exists|chain: Seq<u32>| chain_between(snapshot, chain, a, b)
}

/// Every CPU is on its own core.
pub proof fn same_core_reflexive(snapshot: SysfsSnapshotView, a: u32)
    ensures
        same_core(snapshot, a, a),
{
    assert(chain_between(snapshot, seq![a], a, a));
}

/// Sharing a core is symmetric.
pub proof fn same_core_symmetric(snapshot: SysfsSnapshotView, a: u32, b: u32)
    requires
        same_core(snapshot, a, b),
    ensures
        same_core(snapshot, b, a),
{
    let chain = choose|chain: Seq<u32>| chain_between(snapshot, chain, a, b);
    let back = chain.reverse();
    assert forall|i: int, j: int| 0 <= i < back.len() && j == i + 1 && j < back.len() implies
        directly_joined(snapshot, #[trigger] back[i], #[trigger] back[j]) by {
        let n = chain.len() as int;
        assert(directly_joined(snapshot, chain[n - 1 - j], chain[n - 1 - i]));
        lemma_joined_symmetric(snapshot, chain[n - 1 - j], chain[n - 1 - i]);
    }
    assert(chain_between(snapshot, back, b, a));
}

proof fn lemma_joined_symmetric(snapshot: SysfsSnapshotView, a: u32, b: u32)
    requires
        directly_joined(snapshot, a, b),
    ensures
        directly_joined(snapshot, b, a),
{
    if same_ids(snapshot, a, b) {
        let (i, j) = choose|i: int, j: int|
            0 <= i < snapshot.records.len() && 0 <= j < snapshot.records.len() && (
            #[trigger] snapshot.records[i]).id == a && (#[trigger] snapshot.records[j]).id == b
                && equal_ids(snapshot.records[i], snapshot.records[j]);
        assert(equal_ids(snapshot.records[j], snapshot.records[i]));
    }
}

/// Sharing a core is transitive.
pub proof fn same_core_transitive(snapshot: SysfsSnapshotView, a: u32, b: u32, c: u32)
    requires
        same_core(snapshot, a, b),
        same_core(snapshot, b, c),
    ensures
        same_core(snapshot, a, c),
{
    let x = choose|chain: Seq<u32>| chain_between(snapshot, chain, a, b);
    let y = choose|chain: Seq<u32>| chain_between(snapshot, chain, b, c);
    let z = x + y.drop_first();
    assert forall|i: int, j: int| 0 <= i < z.len() && j == i + 1 && j < z.len() implies
        directly_joined(snapshot, #[trigger] z[i], #[trigger] z[j]) by {
        let n = x.len() as int;
        if j < n {
            assert(directly_joined(snapshot, x[i], x[j]));
        } else {
            assert(z[j] == y[j - n + 1]);
            assert(z[i] == y[i - n + 1]);
            assert(directly_joined(snapshot, y[i - n + 1], y[j - n + 1]));
        }
    }
    assert(z.last() == c) by {
        if y.len() == 1 {
            assert(z =~= x);
        }
    }
    assert(chain_between(snapshot, z, a, c));
}

proof fn lemma_joined_same_core(snapshot: SysfsSnapshotView, a: u32, b: u32)
    requires
        directly_joined(snapshot, a, b),
    ensures
        same_core(snapshot, a, b),
{
    let chain = seq![a, b];
    assert(chain_between(snapshot, chain, a, b));
}

/// The least CPU of each core, one per online CPU.
pub open spec fn is_label(snapshot: SysfsSnapshotView, cpu: u32, label: u32) -> bool {
    &&& snapshot.online_cpus.contains(label)
    &&& same_core(snapshot, cpu, label)
    &&& forall|other: u32| #[trigger]
        same_core(snapshot, cpu, other) && snapshot.online_cpus.contains(other) ==> label <= other
}

/// Groups of online CPUs, each named by its least member.
struct DisjointSet {
    labels: Vec<u32>,
}

impl DisjointSet {
    /// Labels only ever name a lesser or equal CPU of the same core.
    spec fn sound(self, snapshot: SysfsSnapshotView) -> bool {
        &&& self.labels@.len() == snapshot.online_cpus.len()
        &&& forall|i: int|
            0 <= i < self.labels@.len() ==> {
                &&& snapshot.online_cpus.contains(#[trigger] self.labels@[i])
                &&& self.labels@[i] <= snapshot.online_cpus[i]
                &&& same_core(snapshot, snapshot.online_cpus[i], self.labels@[i])
            }
    }

    /// Two online CPUs have the same label.
    spec fn together(self, snapshot: SysfsSnapshotView, a: u32, b: u32) -> bool {
        forall|i: int, j: int|
            0 <= i < self.labels@.len() && 0 <= j < self.labels@.len() && (
            #[trigger] snapshot.online_cpus[i]) == a && (#[trigger] snapshot.online_cpus[j]) == b
                ==> self.labels@[i] == self.labels@[j]
    }

    fn new(snapshot: &SysfsSnapshot) -> (out: Self)
        requires
            snapshot@.well_formed(),
        ensures
            out.sound(snapshot@),
    {
        let labels = copy_numbers(&snapshot.online_cpus);
        proof {
            assert forall|i: int| 0 <= i < labels@.len() implies snapshot@.online_cpus.contains(
                #[trigger] labels@[i],
            ) && same_core(snapshot@, snapshot@.online_cpus[i], labels@[i]) by {
                same_core_reflexive(snapshot@, labels@[i]);
            }
        }
        DisjointSet { labels }
    }

    fn union(&mut self, snapshot: &SysfsSnapshot, first: u32, second: u32)
        requires
            snapshot@.well_formed(),
            old(self).sound(snapshot@),
            snapshot@.online_cpus.contains(first) && snapshot@.online_cpus.contains(second)
                ==> directly_joined(snapshot@, first, second),
        ensures
            final(self).sound(snapshot@),
            final(self).together(snapshot@, first, second),
            forall|a: u32, b: u32| #[trigger]
                old(self).together(snapshot@, a, b) ==> final(self).together(snapshot@, a, b),
    {
        let (i, j) = match (
            position(&snapshot.online_cpus, first),
            position(&snapshot.online_cpus, second),
        ) {
            (Some(i), Some(j)) => (i, j),
            _ => {
                return;
            },
        };
        let first_root: u32 = self.labels[i];
        let second_root: u32 = self.labels[j];
        let (root, child): (u32, u32) = if first_root < second_root {
            (first_root, second_root)
        } else {
            (second_root, first_root)
        };
        let ghost before = self.labels@;
        proof {
            lemma_joined_same_core(snapshot@, first, second);
            same_core_symmetric(snapshot@, first, first_root);
            same_core_symmetric(snapshot@, second, second_root);
            same_core_transitive(snapshot@, first_root, first, second);
            same_core_transitive(snapshot@, first_root, second, second_root);
            same_core_symmetric(snapshot@, first_root, second_root);
            assert(same_core(snapshot@, child, root));
        }
        let mut k: usize = 0;
        while k < self.labels.len()
            invariant
                k <= self.labels@.len(),
                self.labels@.len() == before.len(),
                forall|m: int|
                    0 <= m < k ==> self.labels@[m] == if before[m] == child {
                        root
                    } else {
                        before[m]
                    },
                forall|m: int| k <= m < before.len() ==> self.labels@[m] == before[m],
            decreases self.labels.len() - k,
        {
            if self.labels[k] == child {
                self.labels.set(k, root);
            }
            k += 1;
        }
        proof {
            let after = self.labels@;
            let online = snapshot@.online_cpus;
            assert forall|m: int| 0 <= m < after.len() implies {
                &&& online.contains(#[trigger] after[m])
                &&& after[m] <= online[m]
                &&& same_core(snapshot@, online[m], after[m])
            } by {
                assert(online.contains(before[m]) && before[m] <= online[m] && same_core(
                    snapshot@,
                    online[m],
                    before[m],
                ));
                if before[m] == child {
                    same_core_transitive(snapshot@, online[m], child, root);
                    assert(online.contains(before[i as int]) && online.contains(before[j as int]));
                }
            }
            assert(self.together(snapshot@, first, second)) by {
                assert forall|x: int, y: int|
                    0 <= x < after.len() && 0 <= y < after.len() && (#[trigger] online[x]) == first
                        && (#[trigger] online[y]) == second implies after[x] == after[y] by {
                    assert(x == i && y == j) by {
                        if x < i {
                            assert(online[x] < online[i as int]);
                        } else if i < x {
                            assert(online[i as int] < online[x]);
                        }
                        if y < j {
                            assert(online[y] < online[j as int]);
                        } else if j < y {
                            assert(online[j as int] < online[y]);
                        }
                    }
                }
            }
            assert forall|a: u32, b: u32| #[trigger]
                old(self).together(snapshot@, a, b) implies self.together(snapshot@, a, b) by {
                assert forall|x: int, y: int|
                    0 <= x < after.len() && 0 <= y < after.len() && (#[trigger] online[x]) == a && (
                    #[trigger] online[y]) == b implies after[x] == after[y] by {
                    assert(before[x] == before[y]);
                }
            }
        }
    }
}

/// The place of a number in a vector.
fn position(v: &Vec<u32>, x: u32) -> (out: Option<usize>)
    ensures
        out is None <==> !v@.contains(x),
        out matches Some(i) ==> i < v@.len() && v@[i as int] == x,
{
    let mut i: usize = 0;
    while i < v.len()
        invariant
            i <= v@.len(),
            forall|k: int| 0 <= k < i ==> v@[k] != x,
        decreases v.len() - i,
    {
        if v[i] == x {
            assert(v@.contains(x)) by {
                assert(v@[i as int] == x);
            }
            return Some(i);
        }
        i += 1;
    }
    None
}

/// Complete labels are constant along every chain.
proof fn lemma_chain_together(
    snapshot: SysfsSnapshotView,
    set: DisjointSet,
    chain: Seq<u32>,
    i: int,
    j: int,
)
    requires
        snapshot.well_formed(),
        set.sound(snapshot),
        forall|a: u32, b: u32| #[trigger]
            directly_joined(snapshot, a, b) ==> set.together(snapshot, a, b),
        0 <= i < set.labels@.len(),
        0 <= j < set.labels@.len(),
        chain_between(snapshot, chain, snapshot.online_cpus[i], snapshot.online_cpus[j]),
    ensures
        set.labels@[i] == set.labels@[j],
    decreases chain.len(),
{
    let online = snapshot.online_cpus;
    if chain.len() == 1 {
        if i < j {
            assert(online[i] < online[j]);
        } else if j < i {
            assert(online[j] < online[i]);
        }
    } else {
        let front = chain.drop_last();
        let previous = front.last();
        assert(directly_joined(snapshot, chain[chain.len() - 2], chain[chain.len() - 1]));
        assert(online.contains(previous));
        let k = choose|k: int| 0 <= k < online.len() && online[k] == previous;
        assert(is_chain(snapshot, front)) by {
            assert forall|x: int, y: int| 0 <= x < front.len() && y == x + 1 && y < front.len() implies
                directly_joined(snapshot, #[trigger] front[x], #[trigger] front[y]) by {
                assert(directly_joined(snapshot, chain[x], chain[y]));
            }
        }
        lemma_chain_together(snapshot, set, front, i, k);
        assert(set.together(snapshot, online[k], online[j]));
        assert(set.labels@[k] == set.labels@[j]);
    }
}

/// Labels that respect every direct join name the least CPU of each core.
proof fn lemma_labels(snapshot: SysfsSnapshotView, set: DisjointSet)
    requires
        snapshot.well_formed(),
        set.sound(snapshot),
        forall|a: u32, b: u32| #[trigger]
            directly_joined(snapshot, a, b) ==> set.together(snapshot, a, b),
    ensures
        forall|i: int|
            0 <= i < set.labels@.len() ==> is_label(
                snapshot,
                snapshot.online_cpus[i],
                #[trigger] set.labels@[i],
            ),
        forall|i: int, j: int|
            0 <= i < set.labels@.len() && 0 <= j < set.labels@.len() ==> (
            #[trigger] set.labels@[i] == #[trigger] set.labels@[j] <==> same_core(
                snapshot,
                snapshot.online_cpus[i],
                snapshot.online_cpus[j],
            )),
{
    let online = snapshot.online_cpus;
    assert forall|i: int, j: int|
        0 <= i < set.labels@.len() && 0 <= j < set.labels@.len() implies (#[trigger] set.labels@[i]
        == #[trigger] set.labels@[j] <==> same_core(snapshot, online[i], online[j])) by {
        if same_core(snapshot, online[i], online[j]) {
            let chain = choose|chain: Seq<u32>|
                chain_between(snapshot, chain, online[i], online[j]);
            lemma_chain_together(snapshot, set, chain, i, j);
        }
        if set.labels@[i] == set.labels@[j] {
            same_core_symmetric(snapshot, online[j], set.labels@[j]);
            same_core_transitive(snapshot, online[i], set.labels@[i], online[j]);
        }
    }
    assert forall|i: int| 0 <= i < set.labels@.len() implies is_label(
        snapshot,
        online[i],
        #[trigger] set.labels@[i],
    ) by {
        let label = set.labels@[i];
        assert forall|other: u32| #[trigger]
            same_core(snapshot, online[i], other) && online.contains(other) implies label
            <= other by {
            let j = choose|j: int| 0 <= j < online.len() && online[j] == other;
            let chain = choose|chain: Seq<u32>| chain_between(snapshot, chain, online[i], online[j]);
            lemma_chain_together(snapshot, set, chain, i, j);
            assert(set.labels@[j] <= online[j]);
        }
    }
}

/// Label every online CPU with the least CPU of its core.
fn label_cores(snapshot: &SysfsSnapshot) -> (labels: Vec<u32>)
    requires
        snapshot@.well_formed(),
    ensures
        labels@.len() == snapshot@.online_cpus.len(),
        forall|i: int|
            0 <= i < labels@.len() ==> is_label(
                snapshot@,
                snapshot@.online_cpus[i],
                #[trigger] labels@[i],
            ),
        forall|i: int, j: int|
            0 <= i < labels@.len() && 0 <= j < labels@.len() ==> (#[trigger] labels@[i]
                == #[trigger] labels@[j] <==> same_core(
                snapshot@,
                snapshot@.online_cpus[i],
                snapshot@.online_cpus[j],
            )),
{
    let ghost view = snapshot@;
    let mut set = DisjointSet::new(snapshot);
    let mut r: usize = 0;
    while r < snapshot.records.len()
        invariant
            r <= snapshot.records@.len(),
            view == snapshot@,
            view.well_formed(),
            set.sound(view),
            forall|x: int, b: u32|
                0 <= x < r && (#[trigger] view.records[x]).siblings is Some
                    && #[trigger] view.records[x].siblings->0.contains(b) ==> set.together(
                    view,
                    view.records[x].id,
                    b,
                ),
        decreases snapshot.records.len() - r,
    {
        let record = &snapshot.records[r];
        assert(view.records[r as int] == record@);
        match &record.siblings {
            Some(siblings) => {
                let mut s: usize = 0;
                while s < siblings.len()
                    invariant
                        s <= siblings@.len(),
                        r < snapshot.records@.len(),
                        view == snapshot@,
                        view.well_formed(),
                        view.records[r as int] == record@,
                        record@.siblings == Some(siblings@),
                        set.sound(view),
                        forall|x: int, b: u32|
                            0 <= x < r && (#[trigger] view.records[x]).siblings is Some
                                && #[trigger] view.records[x].siblings->0.contains(b)
                                ==> set.together(view, view.records[x].id, b),
                        forall|k: int|
                            0 <= k < s ==> set.together(view, record.id, #[trigger] siblings@[k]),
                    decreases siblings.len() - s,
                {
                    proof {
                        assert(siblings@.contains(siblings@[s as int]));
                        assert(names_sibling(view, record.id, siblings@[s as int]));
                    }
                    let ghost before = set;
                    set.union(snapshot, record.id, siblings[s]);
                    proof {
                        assert forall|x: int, b: u32|
                            0 <= x < r && (#[trigger] view.records[x]).siblings is Some
                                && #[trigger] view.records[x].siblings->0.contains(
                                b,
                            ) implies set.together(view, view.records[x].id, b) by {
                            assert(before.together(view, view.records[x].id, b));
                        }
                        assert forall|k: int| 0 <= k < s + 1 implies set.together(
                            view,
                            record.id,
                            #[trigger] siblings@[k],
                        ) by {
                            if k < s {
                                assert(before.together(view, record.id, siblings@[k]));
                            }
                        }
                    }
                    s += 1;
                }
            },
            None => {},
        }
        proof {
            assert forall|x: int, b: u32|
                0 <= x < r + 1 && (#[trigger] view.records[x]).siblings is Some
                    && #[trigger] view.records[x].siblings->0.contains(b) implies set.together(
                view,
                view.records[x].id,
                b,
            ) by {
                if x == r {
                    let siblings = view.records[x].siblings->0;
                    let k = choose|k: int| 0 <= k < siblings.len() && siblings[k] == b;
                    assert(set.together(view, record.id, siblings[k]));
                }
            }
        }
        r += 1;
    }
    let ghost masks = set;
    r = 0;
    while r < snapshot.records.len()
        invariant
            r <= snapshot.records@.len(),
            view == snapshot@,
            view.well_formed(),
            set.sound(view),
            forall|a: u32, b: u32| #[trigger]
                masks.together(view, a, b) ==> set.together(view, a, b),
            forall|x: int, y: int|
                0 <= y < x < r && equal_ids(#[trigger] view.records[y], #[trigger] view.records[x])
                    ==> set.together(view, view.records[y].id, view.records[x].id),
        decreases snapshot.records.len() - r,
    {
        let record = &snapshot.records[r];
        assert(view.records[r as int] == record@);
        let mut q: usize = 0;
        while q < r
            invariant
                q <= r < snapshot.records@.len(),
                view == snapshot@,
                view.well_formed(),
                view.records[r as int] == record@,
                set.sound(view),
                forall|a: u32, b: u32| #[trigger]
                    masks.together(view, a, b) ==> set.together(view, a, b),
                forall|x: int, y: int|
                    0 <= y < x < r && equal_ids(
                        #[trigger] view.records[y],
                        #[trigger] view.records[x],
                    ) ==> set.together(view, view.records[y].id, view.records[x].id),
                forall|y: int|
                    0 <= y < q && equal_ids(#[trigger] view.records[y], view.records[r as int])
                        ==> set.together(view, view.records[y].id, view.records[r as int].id),
            decreases r - q,
        {
            let other = &snapshot.records[q];
            assert(view.records[q as int] == other@);
            if other.siblings.is_none() && record.siblings.is_none() && other.package_id.is_some()
                && other.core_id.is_some() && record.package_id.is_some()
                && record.core_id.is_some() && other.package_id.unwrap()
                == record.package_id.unwrap() && other.core_id.unwrap()
                == record.core_id.unwrap() {
                assert(equal_ids(view.records[q as int], view.records[r as int]));
                assert(same_ids(view, other.id, record.id));
                let ghost before = set;
                set.union(snapshot, other.id, record.id);
                proof {
                    assert forall|a: u32, b: u32| #[trigger]
                        masks.together(view, a, b) implies set.together(view, a, b) by {
                        assert(before.together(view, a, b));
                    }
                    assert forall|x: int, y: int|
                        0 <= y < x < r && equal_ids(
                            #[trigger] view.records[y],
                            #[trigger] view.records[x],
                        ) implies set.together(view, view.records[y].id, view.records[x].id) by {
                        assert(before.together(view, view.records[y].id, view.records[x].id));
                    }
                    assert forall|y: int|
                        0 <= y < q + 1 && equal_ids(
                            #[trigger] view.records[y],
                            view.records[r as int],
                        ) implies set.together(
                        view,
                        view.records[y].id,
                        view.records[r as int].id,
                    ) by {
                        if y < q {
                            assert(before.together(
                                view,
                                view.records[y].id,
                                view.records[r as int].id,
                            ));
                        }
                    }
                }
            } else {
                assert(!equal_ids(view.records[q as int], view.records[r as int]));
            }
            q += 1;
        }
        r += 1;
    }
    proof {
        assert forall|a: u32, b: u32| #[trigger]
            directly_joined(view, a, b) implies set.together(view, a, b) by {
            lemma_join_respected(view, masks, set, a, b);
        }
        lemma_labels(view, set);
    }
    set.labels
}

proof fn lemma_join_respected(
    view: SysfsSnapshotView,
    masks: DisjointSet,
    set: DisjointSet,
    a: u32,
    b: u32,
)
    requires
        view.well_formed(),
        set.sound(view),
        directly_joined(view, a, b),
        forall|c: u32, d: u32| #[trigger] masks.together(view, c, d) ==> set.together(view, c, d),
        forall|x: int, c: u32|
            0 <= x < view.records.len() && (#[trigger] view.records[x]).siblings is Some
                && #[trigger] view.records[x].siblings->0.contains(c) ==> masks.together(
                view,
                view.records[x].id,
                c,
            ),
        forall|x: int, y: int|
            0 <= y < x < view.records.len() && equal_ids(
                #[trigger] view.records[y],
                #[trigger] view.records[x],
            ) ==> set.together(view, view.records[y].id, view.records[x].id),
    ensures
        set.together(view, a, b),
{
    if names_sibling(view, a, b) {
        let i = choose|i: int|
            0 <= i < view.records.len() && (#[trigger] view.records[i]).id == a
                && view.records[i].siblings is Some && view.records[i].siblings->0.contains(b);
        assert(masks.together(view, view.records[i].id, b));
    } else if names_sibling(view, b, a) {
        let i = choose|i: int|
            0 <= i < view.records.len() && (#[trigger] view.records[i]).id == b
                && view.records[i].siblings is Some && view.records[i].siblings->0.contains(a);
        assert(masks.together(view, view.records[i].id, a));
        assert(set.together(view, b, a));
    } else {
        let (i, j) = choose|i: int, j: int|
            0 <= i < view.records.len() && 0 <= j < view.records.len() && (
            #[trigger] view.records[i]).id == a && (#[trigger] view.records[j]).id == b
                && equal_ids(view.records[i], view.records[j]);
        if i < j {
            assert(set.together(view, view.records[i].id, view.records[j].id));
        } else if j < i {
            assert(equal_ids(view.records[j], view.records[i]));
            assert(set.together(view, view.records[j].id, view.records[i].id));
            assert(set.together(view, b, a));
        } else {
            assert forall|x: int, y: int|
                0 <= x < set.labels@.len() && 0 <= y < set.labels@.len() && (
                #[trigger] view.online_cpus[x]) == a && (#[trigger] view.online_cpus[y])
                    == b implies set.labels@[x] == set.labels@[y] by {
                if x < y {
                    assert(view.online_cpus[x] < view.online_cpus[y]);
                } else if y < x {
                    assert(view.online_cpus[y] < view.online_cpus[x]);
                }
            }
        }
    }
}

/// The quoted notation of a list of texts.
pub uninterp spec fn debug_text(values: Seq<Seq<char>>) -> Seq<char>;

/// `format!("{:?}")` of a vector of strings: its quoted notation, with the
/// escapes of the standard library. Claimed: it depends on the texts alone.
#[verifier::external_body]
pub(crate) fn debug_strings(values: &Vec<String>) -> (out: String)
    ensures
        out@ == debug_text(views(values@)),
{
    format!("{values:?}")
}

/// A list in brackets.
pub open spec fn bracketed(items: Seq<Seq<char>>) -> Seq<char> {
    "["@ + join(items, ", "@) + "]"@
}

fn bracket(items: &Vec<String>) -> (out: String)
    ensures
        out@ == bracketed(views(items@)),
{
    "[".to_owned().concat(join_text(items, ", ").as_str()).concat("]")
}

pub open spec fn id_text(id: Option<u32>) -> Seq<char> {
    match id {
        Some(n) => "Some("@ + decimal(n as nat) + ")"@,
        None => "None"@,
    }
}

pub open spec fn core_type_text(core_type: CoreTypeInterpretation) -> Seq<char> {
    match core_type {
        CoreTypeInterpretation::Performance => "Performance"@,
        CoreTypeInterpretation::Efficiency => "Efficiency"@,
        CoreTypeInterpretation::Unsupported(n) => "Unsupported("@ + decimal(n as nat) + ")"@,
    }
}

pub open spec fn ids_text(ids: Seq<Option<u32>>) -> Seq<char> {
    bracketed(ids.map_values(|id: Option<u32>| id_text(id)))
}

pub open spec fn core_types_text(types: Seq<CoreTypeInterpretation>) -> Seq<char> {
    bracketed(types.map_values(|t: CoreTypeInterpretation| core_type_text(t)))
}

pub open spec fn frequencies_text(frequencies: Seq<u64>) -> Seq<char> {
    bracketed(frequencies.map_values(|f: u64| decimal(f as nat)))
}

fn format_ids(ids: &Vec<Option<u32>>) -> (out: String)
    ensures
        out@ == ids_text(ids@),
{
    broadcast use group_views;

    let ghost text = |id: Option<u32>| id_text(id);
    let mut items: Vec<String> = Vec::new();
    let mut i: usize = 0;
    while i < ids.len()
        invariant
            i <= ids@.len(),
            text == (|id: Option<u32>| id_text(id)),
            views(items@) == ids@.take(i as int).map_values(text),
        decreases ids.len() - i,
    {
        items.push(
            match ids[i] {
                Some(n) => "Some(".to_owned().concat(decimal_text(n as u64).as_str()).concat(")"),
                None => "None".to_owned(),
            },
        );
        proof {
            ids@.lemma_map_take_succ(text, i as int);
        }
        i += 1;
    }
    assert(ids@.take(ids@.len() as int) =~= ids@);
    bracket(&items)
}

fn format_core_types(types: &Vec<CoreTypeInterpretation>) -> (out: String)
    ensures
        out@ == core_types_text(types@),
{
    broadcast use group_views;

    let ghost text = |t: CoreTypeInterpretation| core_type_text(t);
    let mut items: Vec<String> = Vec::new();
    let mut i: usize = 0;
    while i < types.len()
        invariant
            i <= types@.len(),
            text == (|t: CoreTypeInterpretation| core_type_text(t)),
            views(items@) == types@.take(i as int).map_values(text),
        decreases types.len() - i,
    {
        items.push(
            match types[i] {
                CoreTypeInterpretation::Performance => "Performance".to_owned(),
                CoreTypeInterpretation::Efficiency => "Efficiency".to_owned(),
                CoreTypeInterpretation::Unsupported(n) => "Unsupported(".to_owned().concat(
                    decimal_text(n as u64).as_str(),
                ).concat(")"),
            },
        );
        proof {
            types@.lemma_map_take_succ(text, i as int);
        }
        i += 1;
    }
    assert(types@.take(types@.len() as int) =~= types@);
    bracket(&items)
}

fn format_frequencies(frequencies: &Vec<u64>) -> (out: String)
    ensures
        out@ == frequencies_text(frequencies@),
{
    broadcast use group_views;

    let ghost text = |f: u64| decimal(f as nat);
    let mut items: Vec<String> = Vec::new();
    let mut i: usize = 0;
    while i < frequencies.len()
        invariant
            i <= frequencies@.len(),
            text == (|f: u64| decimal(f as nat)),
            views(items@) == frequencies@.take(i as int).map_values(text),
        decreases frequencies.len() - i,
    {
        items.push(decimal_text(frequencies[i]));
        proof {
            frequencies@.lemma_map_take_succ(text, i as int);
        }
        i += 1;
    }
    assert(frequencies@.take(frequencies@.len() as int) =~= frequencies@);
    bracket(&items)
}

/// A physical core with what the classifier needs to know of it.
#[derive(Debug)]
pub struct GroupedCore {
    pub output: PhysicalCore,
    pub exact_grouping: bool,
    pub core_type_metadata_present: bool,
    pub explicit_type: Option<CoreTypeInterpretation>,
    pub complete_explicit_type: bool,
    pub max_frequency_khz: Option<u64>,
    pub complete_frequency: bool,
    pub cache_fingerprint: Option<String>,
}

/// A grouped core by its contents.
pub struct GroupedCoreView {
    pub output: PhysicalCoreView,
    pub exact_grouping: bool,
    pub core_type_metadata_present: bool,
    pub explicit_type: Option<CoreTypeInterpretation>,
    pub complete_explicit_type: bool,
    pub max_frequency_khz: Option<u64>,
    pub complete_frequency: bool,
    pub cache_fingerprint: Option<Seq<char>>,
}

impl View for GroupedCore {
    type V = GroupedCoreView;

    open spec fn view(&self) -> GroupedCoreView {
        GroupedCoreView {
            output: self.output@,
            exact_grouping: self.exact_grouping,
            core_type_metadata_present: self.core_type_metadata_present,
            explicit_type: self.explicit_type,
            complete_explicit_type: self.complete_explicit_type,
            max_frequency_khz: self.max_frequency_khz,
            complete_frequency: self.complete_frequency,
            cache_fingerprint: optional_string(self.cache_fingerprint),
        }
    }
}

/// The record of a CPU.
pub open spec fn record_of(records: Seq<CpuRecordView>, cpu: u32) -> CpuRecordView
    decreases records.len(),
{
    if records.len() <= 1 || records.last().id == cpu {
        records.last()
    } else {
        record_of(records.drop_last(), cpu)
    }
}

/// The records of some CPUs, in their order.
pub open spec fn records_of(records: Seq<CpuRecordView>, cpus: Seq<u32>) -> Seq<CpuRecordView> {
    cpus.map_values(|cpu: u32| record_of(records, cpu))
}

/// The value that all have.
pub open spec fn common_value(values: Seq<Option<u32>>) -> Option<u32> {
    if values.len() > 0 && forall|i: int| 0 <= i < values.len() ==> #[trigger] values[i] == values[0] {
        values[0]
    } else {
        None
    }
}

/// Some value is known, and another is unknown or different.
pub open spec fn ids_uncertain(values: Seq<Option<u32>>) -> bool {
    exists|i: int, j: int|
        0 <= i < values.len() && 0 <= j < values.len() && #[trigger] values[i] is Some
            && #[trigger] values[j] != values[i]
}

/// The single value of a sequence.
pub open spec fn all_same<T>(values: Seq<T>) -> Option<T> {
    if values.len() > 0 && forall|i: int| 0 <= i < values.len() ==> #[trigger] values[i] == values[0] {
        Some(values[0])
    } else {
        None
    }
}

pub open spec fn package_ids(records: Seq<CpuRecordView>) -> Seq<Option<u32>> {
    records.map_values(|r: CpuRecordView| r.package_id)
}

pub open spec fn core_ids(records: Seq<CpuRecordView>) -> Seq<Option<u32>> {
    records.map_values(|r: CpuRecordView| r.core_id)
}

pub open spec fn explicit_types(records: Seq<CpuRecordView>) -> Seq<CoreTypeInterpretation> {
    records.filter_map(|r: CpuRecordView| r.explicit_type)
}

pub open spec fn frequencies(records: Seq<CpuRecordView>) -> Seq<u64> {
    records.filter_map(|r: CpuRecordView| r.max_frequency_khz)
}

pub open spec fn fingerprints(records: Seq<CpuRecordView>) -> Seq<Seq<char>> {
    records.filter_map(|r: CpuRecordView| r.cache_fingerprint)
}

/// Every sibling mask in the group names exactly the group, and something
/// holds the group together.
pub open spec fn exactly_grouped(cpus: Seq<u32>, records: Seq<CpuRecordView>) -> bool {
    &&& forall|i: int|
        0 <= i < records.len() ==> (#[trigger] records[i].siblings is Some ==> records[i].siblings
            == Some(cpus))
    &&& (exists|i: int| 0 <= i < records.len() && #[trigger] records[i].siblings is Some) || (
    common_value(package_ids(records)) is Some && common_value(core_ids(records)) is Some)
}

pub open spec fn id_notes(cpus: Seq<u32>, name: Seq<char>, values: Seq<Option<u32>>) -> Seq<
    EvidenceView,
> {
    if ids_uncertain(values) {
        seq![
            evidence(
                EvidenceSource::TopologyIds,
                cpus,
                name + " values "@ + ids_text(values),
                "The "@ + name
                    + " values in this sibling group are incomplete or contradictory; the identifier was left unknown."@,
                EvidenceStrength::Moderate,
                EvidenceKind::Warning,
            ),
        ]
    } else {
        Seq::empty()
    }
}

pub open spec fn grouping_note(cpus: Seq<u32>, exact: bool) -> EvidenceView {
    evidence(
        EvidenceSource::ThreadSiblings,
        cpus,
        cpu_list_text(cpus),
        if exact {
            "Logical CPUs were grouped using consistent sibling masks or package/core identifiers."@
        } else {
            "Physical-core grouping is incomplete or inconsistent; this group remains usable but is not classification-grade."@
        },
        if exact {
            EvidenceStrength::Strong
        } else {
            EvidenceStrength::Moderate
        },
        if exact {
            EvidenceKind::Observation
        } else {
            EvidenceKind::Warning
        },
    )
}

pub open spec fn core_type_notes(cpus: Seq<u32>, types: Seq<CoreTypeInterpretation>) -> Seq<
    EvidenceView,
> {
    if types.len() > 0 && all_same(types) is None {
        seq![
            evidence(
                EvidenceSource::CoreType,
                cpus,
                core_types_text(types),
                "Logical CPUs grouped into one physical core report contradictory core_type values."@,
                EvidenceStrength::Explicit,
                EvidenceKind::Contradiction,
            ),
        ]
    } else {
        Seq::empty()
    }
}

pub open spec fn frequency_notes(cpus: Seq<u32>, values: Seq<u64>) -> Seq<EvidenceView> {
    if values.len() > 0 && all_same(values) is None {
        seq![
            evidence(
                EvidenceSource::MaximumFrequency,
                cpus,
                frequencies_text(values),
                "Logical CPUs in one physical core report contradictory maximum frequencies."@,
                EvidenceStrength::Moderate,
                EvidenceKind::Contradiction,
            ),
        ]
    } else {
        Seq::empty()
    }
}

pub open spec fn cache_notes(
    cpus: Seq<u32>,
    values: Seq<Seq<char>>,
    common: Option<Seq<char>>,
) -> Seq<EvidenceView> {
    if values.len() > 0 && common is None {
        seq![
            evidence(
                EvidenceSource::CacheTopology,
                cpus,
                debug_text(values),
                "Logical CPUs in one physical core report inconsistent cache topology."@,
                EvidenceStrength::Weak,
                EvidenceKind::Contradiction,
            ),
        ]
    } else {
        Seq::empty()
    }
}

/// The physical core that some CPUs form, before classification.
pub open spec fn core_group(cpus: Seq<u32>, all_records: Seq<CpuRecordView>) -> GroupedCoreView {
    let records = records_of(all_records, cpus);
    let packages = package_ids(records);
    let cores = core_ids(records);
    let types = explicit_types(records);
    let speeds = frequencies(records);
    let caches = fingerprints(records);
    let exact = exactly_grouped(cpus, records);
    let common_cache = if caches.len() == records.len() {
        all_same(caches)
    } else {
        None
    };
    let complete_frequency = speeds.len() == records.len() && (speeds.len() == 0 || all_same(
        speeds,
    ) is Some);
    GroupedCoreView {
        output: PhysicalCoreView {
            package_id: common_value(packages),
            core_id: common_value(cores),
            logical_cpus: cpus,
            core_class: CoreClass::Unknown,
            confidence: Single { bits: 0 },
            evidence: seq![grouping_note(cpus, exact)] + id_notes(
                cpus,
                "physical_package_id"@,
                packages,
            ) + id_notes(cpus, "core_id"@, cores) + core_type_notes(cpus, types) + frequency_notes(
                cpus,
                speeds,
            ) + cache_notes(cpus, caches, common_cache),
        },
        exact_grouping: exact,
        core_type_metadata_present: exists|i: int|
            0 <= i < records.len() && #[trigger] records[i].core_type_metadata_present,
        explicit_type: all_same(types),
        complete_explicit_type: types.len() == records.len() && all_same(types) is Some,
        max_frequency_khz: if complete_frequency {
            all_same(speeds)
        } else {
            None
        },
        complete_frequency,
        cache_fingerprint: common_cache,
    }
}

fn find_record<'a>(records: &'a Vec<CpuRecord>, cpu: u32) -> (out: &'a CpuRecord)
    requires
        records@.len() > 0,
    ensures
        out@ == record_of(views(records@), cpu),
{
    let ghost all = views(records@);
    let mut i: usize = records.len() - 1;
    assert(all.take(i + 1) =~= all);
    while i > 0 && records[i].id != cpu
        invariant
            i < records@.len(),
            all == views(records@),
            record_of(all, cpu) == record_of(all.take(i + 1), cpu),
        decreases i,
    {
        assert(all.take(i + 1).last() == records@[i as int]@);
        assert(all.take(i + 1).drop_last() =~= all.take(i as int));
        i -= 1;
    }
    assert(all.take(i + 1).last() == records@[i as int]@);
    &records[i]
}

fn find_records<'a>(records: &'a Vec<CpuRecord>, cpus: &Vec<u32>) -> (out: Vec<&'a CpuRecord>)
    requires
        records@.len() > 0,
    ensures
        views(out@) == records_of(views(records@), cpus@),
{
    broadcast use group_views;

    let ghost find = |cpu: u32| record_of(views(records@), cpu);
    let mut out: Vec<&CpuRecord> = Vec::new();
    let mut i: usize = 0;
    while i < cpus.len()
        invariant
            i <= cpus@.len(),
            records@.len() > 0,
            find == (|cpu: u32| record_of(views(records@), cpu)),
            views(out@) == cpus@.take(i as int).map_values(find),
        decreases cpus.len() - i,
    {
        out.push(find_record(records, cpus[i]));
        proof {
            cpus@.lemma_map_take_succ(find, i as int);
        }
        i += 1;
    }
    assert(cpus@.take(cpus@.len() as int) =~= cpus@);
    out
}

fn find_common(values: &Vec<Option<u32>>) -> (out: Option<u32>)
    ensures
        out == common_value(values@),
{
    if values.len() == 0 {
        return None;
    }
    let mut i: usize = 0;
    while i < values.len()
        invariant
            0 < values@.len(),
            i <= values@.len(),
            forall|k: int| 0 <= k < i ==> #[trigger] values@[k] == values@[0],
        decreases values.len() - i,
    {
        if !same_id(values[i], values[0]) {
            assert(values@[i as int] != values@[0]);
            return None;
        }
        i += 1;
    }
    values[0]
}

fn same_id(a: Option<u32>, b: Option<u32>) -> (same: bool)
    ensures
        same == (a == b),
{
    match (a, b) {
        (Some(x), Some(y)) => x == y,
        (None, None) => true,
        _ => false,
    }
}

fn are_uncertain(values: &Vec<Option<u32>>) -> (out: bool)
    ensures
        out == ids_uncertain(values@),
{
    let mut i: usize = 0;
    while i < values.len()
        invariant
            i <= values@.len(),
            forall|x: int, y: int|
                0 <= x < i && 0 <= y < values@.len() && #[trigger] values@[x] is Some
                    ==> #[trigger] values@[y] == values@[x],
        decreases values.len() - i,
    {
        if values[i].is_some() {
            let mut j: usize = 0;
            while j < values.len()
                invariant
                    i < values@.len(),
                    j <= values@.len(),
                    values@[i as int] is Some,
                    forall|y: int| 0 <= y < j ==> #[trigger] values@[y] == values@[i as int],
                decreases values.len() - j,
            {
                if !same_id(values[j], values[i]) {
                    assert(values@[i as int] is Some && values@[j as int] != values@[i as int]);
                    return true;
                }
                j += 1;
            }
        }
        i += 1;
    }
    false
}

fn add_id_uncertainty_evidence(
    cpus: &Vec<u32>,
    name: &str,
    values: &Vec<Option<u32>>,
    notes: &mut Vec<DetectionEvidence>,
)
    ensures
        views(final(notes)@) == views(old(notes)@) + id_notes(cpus@, name@, values@),
{
    if are_uncertain(values) {
        note(
            notes,
            EvidenceSource::TopologyIds,
            cpus,
            name.to_owned().concat(" values ").concat(format_ids(values).as_str()),
            "The ".to_owned().concat(name).concat(
                " values in this sibling group are incomplete or contradictory; the identifier was left unknown.",
            ),
            EvidenceStrength::Moderate,
            EvidenceKind::Warning,
        );
    }
}

fn same_numbers(a: &Vec<u32>, b: &Vec<u32>) -> (same: bool)
    ensures
        same == (a@ == b@),
{
    if a.len() != b.len() {
        return false;
    }
    let mut i: usize = 0;
    while i < a.len()
        invariant
            i <= a@.len(),
            a@.len() == b@.len(),
            forall|k: int| 0 <= k < i ==> a@[k] == b@[k],
        decreases a.len() - i,
    {
        if a[i] != b[i] {
            assert(a@[i as int] != b@[i as int]);
            return false;
        }
        i += 1;
    }
    assert(a@ =~= b@);
    true
}

/// The identifiers and the values that the records of a group hold.
struct GroupValues {
    packages: Vec<Option<u32>>,
    cores: Vec<Option<u32>>,
    types: Vec<CoreTypeInterpretation>,
    speeds: Vec<u64>,
    caches: Vec<String>,
    masks_consistent: bool,
    any_mask: bool,
    metadata_present: bool,
}

fn gather(cpus: &Vec<u32>, records: &Vec<&CpuRecord>) -> (out: GroupValues)
    ensures
        out.packages@ == package_ids(views(records@)),
        out.cores@ == core_ids(views(records@)),
        out.types@ == explicit_types(views(records@)),
        out.speeds@ == frequencies(views(records@)),
        views(out.caches@) == fingerprints(views(records@)),
        out.masks_consistent <==> forall|i: int|
            0 <= i < views(records@).len() ==> (#[trigger] views(records@)[i].siblings is Some
                ==> views(records@)[i].siblings == Some(cpus@)),
        out.any_mask <==> exists|i: int|
            0 <= i < views(records@).len() && #[trigger] views(records@)[i].siblings is Some,
        out.metadata_present <==> exists|i: int|
            0 <= i < views(records@).len()
                && #[trigger] views(records@)[i].core_type_metadata_present,
{
    broadcast use group_views;

    let ghost all = views(records@);
    let ghost package = |r: CpuRecordView| r.package_id;
    let ghost core = |r: CpuRecordView| r.core_id;
    let ghost explicit = |r: CpuRecordView| r.explicit_type;
    let ghost speed = |r: CpuRecordView| r.max_frequency_khz;
    let ghost cache = |r: CpuRecordView| r.cache_fingerprint;
    let mut out = GroupValues {
        packages: Vec::new(),
        cores: Vec::new(),
        types: Vec::new(),
        speeds: Vec::new(),
        caches: Vec::new(),
        masks_consistent: true,
        any_mask: false,
        metadata_present: false,
    };
    let mut i: usize = 0;
    proof {
        assert(all.take(0) =~= Seq::empty());
        reveal(Seq::filter_map);
    }
    while i < records.len()
        invariant
            i <= records@.len(),
            all == views(records@),
            package == (|r: CpuRecordView| r.package_id),
            core == (|r: CpuRecordView| r.core_id),
            explicit == (|r: CpuRecordView| r.explicit_type),
            speed == (|r: CpuRecordView| r.max_frequency_khz),
            cache == (|r: CpuRecordView| r.cache_fingerprint),
            out.packages@ == all.take(i as int).map_values(package),
            out.cores@ == all.take(i as int).map_values(core),
            out.types@ == all.take(i as int).filter_map(explicit),
            out.speeds@ == all.take(i as int).filter_map(speed),
            views(out.caches@) == all.take(i as int).filter_map(cache),
            out.masks_consistent <==> forall|k: int|
                0 <= k < i ==> (#[trigger] all[k].siblings is Some ==> all[k].siblings == Some(
                    cpus@,
                )),
            out.any_mask <==> exists|k: int| 0 <= k < i && #[trigger] all[k].siblings is Some,
            out.metadata_present <==> exists|k: int|
                0 <= k < i && #[trigger] all[k].core_type_metadata_present,
        decreases records.len() - i,
    {
        let record = records[i];
        proof {
            assert(all[i as int] == record@);
            assert(all[i as int].siblings == optional_numbers(record.siblings));
            assert(all[i as int].core_type_metadata_present == record.core_type_metadata_present);
            all.lemma_filter_map_take_succ(explicit, i as int);
            all.lemma_filter_map_take_succ(speed, i as int);
            all.lemma_filter_map_take_succ(cache, i as int);
        }
        out.packages.push(record.package_id);
        out.cores.push(record.core_id);
        match record.explicit_type {
            Some(value) => {
                out.types.push(value);
            },
            None => {},
        }
        match record.max_frequency_khz {
            Some(value) => {
                out.speeds.push(value);
            },
            None => {},
        }
        match &record.cache_fingerprint {
            Some(value) => {
                out.caches.push(value.clone());
            },
            None => {},
        }
        match &record.siblings {
            Some(siblings) => {
                out.any_mask = true;
                if !same_numbers(siblings, cpus) {
                    out.masks_consistent = false;
                }
            },
            None => {},
        }
        if record.core_type_metadata_present {
            out.metadata_present = true;
            assert(all[i as int].core_type_metadata_present);
        }
        proof {
            assert(forall|k: int|
                0 <= k < i + 1 && #[trigger] all[k].siblings is Some ==> k < i || k == i);
        }
        i += 1;
        assert(out.packages@ =~= all.take(i as int).map_values(package));
        assert(out.cores@ =~= all.take(i as int).map_values(core));
    }
    assert(all.take(all.len() as int) =~= all);
    out
}

fn same_types(values: &Vec<CoreTypeInterpretation>) -> (out: Option<CoreTypeInterpretation>)
    ensures
        out == all_same(values@),
{
    if values.len() == 0 {
        return None;
    }
    let mut i: usize = 0;
    while i < values.len()
        invariant
            0 < values@.len(),
            i <= values@.len(),
            forall|k: int| 0 <= k < i ==> #[trigger] values@[k] == values@[0],
        decreases values.len() - i,
    {
        if values[i] != values[0] {
            assert(values@[i as int] != values@[0]);
            return None;
        }
        i += 1;
    }
    Some(values[0])
}

fn same_speeds(values: &Vec<u64>) -> (out: Option<u64>)
    ensures
        out == all_same(values@),
{
    if values.len() == 0 {
        return None;
    }
    let mut i: usize = 0;
    while i < values.len()
        invariant
            0 < values@.len(),
            i <= values@.len(),
            forall|k: int| 0 <= k < i ==> #[trigger] values@[k] == values@[0],
        decreases values.len() - i,
    {
        if values[i] != values[0] {
            assert(values@[i as int] != values@[0]);
            return None;
        }
        i += 1;
    }
    Some(values[0])
}

fn same_caches(values: &Vec<String>) -> (out: Option<String>)
    ensures
        optional_string(out) == all_same(views(values@)),
{
    let ghost all = views(values@);
    if values.len() == 0 {
        return None;
    }
    let mut i: usize = 0;
    while i < values.len()
        invariant
            0 < values@.len(),
            i <= values@.len(),
            all == views(values@),
            forall|k: int| 0 <= k < i ==> #[trigger] all[k] == all[0],
        decreases values.len() - i,
    {
        assert(all[i as int] == values@[i as int]@ && all[0] == values@[0]@);
        if !same_text(values[i].as_str(), values[0].as_str()) {
            assert(all[i as int] != all[0]);
            return None;
        }
        i += 1;
    }
    Some(values[0].clone())
}

/// Describe the physical core that some CPUs form.
fn build_group(cpus: &Vec<u32>, records: &Vec<CpuRecord>) -> (out: GroupedCore)
    requires
        records@.len() > 0,
    ensures
        out@ == core_group(cpus@, views(records@)),
{
    let group = find_records(records, cpus);
    let ghost members = records_of(views(records@), cpus@);
    assert(views(group@).len() == group@.len());
    let values = gather(cpus, &group);
    let package_id = find_common(&values.packages);
    let core_id = find_common(&values.cores);
    let exact_grouping = values.masks_consistent && (values.any_mask || (package_id.is_some()
        && core_id.is_some()));
    assert(exact_grouping == exactly_grouped(cpus@, members));
    let mut notes: Vec<DetectionEvidence> = Vec::new();
    note(
        &mut notes,
        EvidenceSource::ThreadSiblings,
        cpus,
        format_cpu_list(cpus),
        if exact_grouping {
            "Logical CPUs were grouped using consistent sibling masks or package/core identifiers.".to_owned()
        } else {
            "Physical-core grouping is incomplete or inconsistent; this group remains usable but is not classification-grade.".to_owned()
        },
        if exact_grouping {
            EvidenceStrength::Strong
        } else {
            EvidenceStrength::Moderate
        },
        if exact_grouping {
            EvidenceKind::Observation
        } else {
            EvidenceKind::Warning
        },
    );
    add_id_uncertainty_evidence(cpus, "physical_package_id", &values.packages, &mut notes);
    add_id_uncertainty_evidence(cpus, "core_id", &values.cores, &mut notes);
    let explicit_type = same_types(&values.types);
    let complete_explicit_type = values.types.len() == group.len() && explicit_type.is_some();
    if values.types.len() > 0 && explicit_type.is_none() {
        note(
            &mut notes,
            EvidenceSource::CoreType,
            cpus,
            format_core_types(&values.types),
            "Logical CPUs grouped into one physical core report contradictory core_type values.".to_owned(),
            EvidenceStrength::Explicit,
            EvidenceKind::Contradiction,
        );
    }
    let common_speed = same_speeds(&values.speeds);
    let complete_frequency = values.speeds.len() == group.len() && (values.speeds.len() == 0
        || common_speed.is_some());
    let max_frequency_khz = if complete_frequency {
        common_speed
    } else {
        None
    };
    if values.speeds.len() > 0 && common_speed.is_none() {
        note(
            &mut notes,
            EvidenceSource::MaximumFrequency,
            cpus,
            format_frequencies(&values.speeds),
            "Logical CPUs in one physical core report contradictory maximum frequencies.".to_owned(),
            EvidenceStrength::Moderate,
            EvidenceKind::Contradiction,
        );
    }
    assert(views(values.caches@).len() == values.caches@.len());
    let cache_fingerprint = if values.caches.len() == group.len() {
        same_caches(&values.caches)
    } else {
        None
    };
    if values.caches.len() > 0 && cache_fingerprint.is_none() {
        note(
            &mut notes,
            EvidenceSource::CacheTopology,
            cpus,
            debug_strings(&values.caches),
            "Logical CPUs in one physical core report inconsistent cache topology.".to_owned(),
            EvidenceStrength::Weak,
            EvidenceKind::Contradiction,
        );
    }
    let out = GroupedCore {
        output: PhysicalCore {
            package_id,
            core_id,
            logical_cpus: copy_numbers(cpus),
            core_class: CoreClass::Unknown,
            confidence: Single { bits: 0 },
            evidence: notes,
        },
        exact_grouping,
        core_type_metadata_present: values.metadata_present,
        explicit_type,
        complete_explicit_type,
        max_frequency_khz,
        complete_frequency,
        cache_fingerprint,
    };
    assert(out@.output.evidence =~= core_group(cpus@, views(records@)).output.evidence);
    out
}

/// The least CPU of its core.
pub open spec fn is_first(snapshot: SysfsSnapshotView) -> spec_fn(u32) -> bool {
    |cpu: u32| is_label(snapshot, cpu, cpu)
}

pub open spec fn shares_core(snapshot: SysfsSnapshotView, first: u32) -> spec_fn(u32) -> bool {
    |cpu: u32| same_core(snapshot, first, cpu)
}

/// The online CPUs that share a core with a given one, in ascending order.
pub open spec fn core_members(snapshot: SysfsSnapshotView, first: u32) -> Seq<u32> {
    snapshot.online_cpus.filter(shares_core(snapshot, first))
}

/// The physical cores of a snapshot, in the order of their least CPUs.
pub open spec fn core_groups(snapshot: SysfsSnapshotView) -> Seq<GroupedCoreView> {
    snapshot.online_cpus.filter(is_first(snapshot)).map_values(
        |first: u32| core_group(core_members(snapshot, first), snapshot.records),
    )
}

/// The CPUs with a given label.
fn labelled(cpus: &Vec<u32>, labels: &Vec<u32>, label: u32, Ghost(keep): Ghost<spec_fn(u32) -> bool>) -> (out: Vec<u32>)
    requires
        cpus@.len() == labels@.len(),
        forall|i: int|
            0 <= i < cpus@.len() ==> (#[trigger] labels@[i] == label <==> keep(cpus@[i])),
    ensures
        out@ == cpus@.filter(keep),
{
    let mut out: Vec<u32> = Vec::new();
    let mut i: usize = 0;
    proof {
        reveal(Seq::filter);
        assert(cpus@.take(0).filter(keep) =~= Seq::empty());
    }
    while i < cpus.len()
        invariant
            i <= cpus@.len(),
            cpus@.len() == labels@.len(),
            forall|k: int|
                0 <= k < cpus@.len() ==> (#[trigger] labels@[k] == label <==> keep(cpus@[k])),
            out@ == cpus@.take(i as int).filter(keep),
        decreases cpus.len() - i,
    {
        proof {
            assert(cpus@.take(i + 1) =~= cpus@.take(i as int).push(cpus@[i as int]));
            cpus@.take(i as int).lemma_filter_push(cpus@[i as int], keep);
        }
        if labels[i] == label {
            out.push(cpus[i]);
        }
        i += 1;
    }
    assert(cpus@.take(cpus@.len() as int) =~= cpus@);
    out
}

/// Group the online CPUs into physical cores.
pub fn group_physical_cores(snapshot: &SysfsSnapshot) -> (out: Vec<GroupedCore>)
    requires
        snapshot@.well_formed(),
    ensures
        views(out@) == core_groups(snapshot@),
{
    broadcast use group_views;

    let labels = label_cores(snapshot);
    let ghost view = snapshot@;
    let ghost online = view.online_cpus;
    let ghost first = is_first(view);
    let ghost group = |cpu: u32| core_group(core_members(view, cpu), view.records);
    let mut out: Vec<GroupedCore> = Vec::new();
    let mut i: usize = 0;
    proof {
        reveal(Seq::filter);
        assert(online.take(0).filter(first) =~= Seq::empty());
        assert(online.take(0).filter(first).map_values(group) =~= Seq::empty());
    }
    while i < labels.len()
        invariant
            i <= labels@.len(),
            view == snapshot@,
            view.well_formed(),
            online == snapshot.online_cpus@,
            online == view.online_cpus,
            labels@.len() == online.len(),
            first == is_first(view),
            group == (|cpu: u32| core_group(core_members(view, cpu), view.records)),
            forall|k: int|
                0 <= k < labels@.len() ==> is_label(view, online[k], #[trigger] labels@[k]),
            forall|k: int, m: int|
                0 <= k < labels@.len() && 0 <= m < labels@.len() ==> (#[trigger] labels@[k]
                    == #[trigger] labels@[m] <==> same_core(view, online[k], online[m])),
            views(out@) == online.take(i as int).filter(first).map_values(group),
        decreases labels.len() - i,
    {
        let cpu: u32 = snapshot.online_cpus[i];
        proof {
            assert(online.take(i + 1) =~= online.take(i as int).push(cpu));
            online.take(i as int).lemma_filter_push(cpu, first);
            assert(is_label(view, cpu, labels@[i as int]));
            if first(cpu) {
                same_core_reflexive(view, cpu);
                assert(labels@[i as int] <= cpu);
                assert(same_core(view, cpu, labels@[i as int]));
                assert(cpu <= labels@[i as int]);
            }
        }
        if labels[i] == cpu {
            let ghost keep = shares_core(view, cpu);
            let members = labelled(&snapshot.online_cpus, &labels, cpu, Ghost(keep));
            out.push(build_group(&members, &snapshot.records));
            proof {
                online.take(i as int).filter(first).lemma_push_map_commute(group, cpu);
            }
        }
        i += 1;
    }
    assert(online.take(online.len() as int) =~= online);
    out
}

} // verus!
