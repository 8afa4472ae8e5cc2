//! Orders of list indices.

use vstd::prelude::*;

verus! {

/// `order` holds every index below `n` once.
pub open spec fn permutes(order: Seq<usize>, n: nat) -> bool {
    &&& order.len() == n
    &&& forall|i: int| 0 <= i < order.len() ==> (#[trigger] order[i]) < n
    &&& forall|i: int, j: int|
        0 <= i < j < order.len() ==> (#[trigger] order[i]) != (#[trigger] order[j])
}

/// In `order`, no index comes after one that it goes before; equal ones keep
/// their places.
pub open spec fn ordered(order: Seq<usize>, before: spec_fn(int, int) -> bool) -> bool {
    forall|i: int, j: int|
        0 <= i < j < order.len() ==> !before(
            (#[trigger] order[j]) as int,
            (#[trigger] order[i]) as int,
        ) && (before(order[i] as int, order[j] as int) || order[i] < order[j])
}

/// A strict order of which "neither goes before the other" is an equivalence.
pub open spec fn weak_order(before: spec_fn(int, int) -> bool, n: nat) -> bool {
    &&& forall|a: int, b: int|
        0 <= a < n && 0 <= b < n && #[trigger] before(a, b) ==> !before(b, a)
    &&& forall|a: int, b: int, c: int|
        #![trigger before(a, b), before(b, c)]
        0 <= a < n && 0 <= b < n && 0 <= c < n && before(a, b) && before(b, c) ==> before(a, c)
    &&& forall|a: int, b: int, c: int|
        #![trigger before(a, c), before(a, b)]
        #![trigger before(a, c), before(b, c)]
        0 <= a < n && 0 <= b < n && 0 <= c < n && before(a, c) ==> before(a, b) || before(b, c)
}

/// Sorting has one outcome: two orders of the same indices by the same relation
/// are the same.
pub proof fn law_sorting_has_one_outcome(
    a: Seq<usize>,
    b: Seq<usize>,
    before: spec_fn(int, int) -> bool,
    n: nat,
)
    requires
        permutes(a, n),
        permutes(b, n),
        ordered(a, before),
        ordered(b, before),
    ensures
        a == b,
{
    assert forall|i: int| 0 <= i < n implies a[i] == b[i] by {
        lemma_same_at(a, b, before, n, i);
    }
    assert(a =~= b);
}

proof fn lemma_same_at(
    a: Seq<usize>,
    b: Seq<usize>,
    before: spec_fn(int, int) -> bool,
    n: nat,
    i: int,
)
    requires
        permutes(a, n),
        permutes(b, n),
        ordered(a, before),
        ordered(b, before),
        0 <= i < n,
    ensures
        a[i] == b[i],
    decreases i,
{
    assert forall|k: int| 0 <= k < i implies a[k] == b[k] by {
        lemma_same_at(a, b, before, n, k);
    }
    if a[i] != b[i] {
        lemma_holds_all(a, n, b[i] as int);
        lemma_holds_all(b, n, a[i] as int);
        let p = choose|p: int| 0 <= p < a.len() && a[p] == b[i];
        let q = choose|q: int| 0 <= q < b.len() && b[q] == a[i];
        if p < i {
            assert(b[p] == a[p]);
            assert(false);
        }
        if q < i {
            assert(a[q] == b[q]);
            assert(false);
        }
        assert(i < p && i < q);
        assert(!before(a[p] as int, a[i] as int) && (before(a[i] as int, a[p] as int) || a[i]
            < a[p]));
        assert(!before(b[q] as int, b[i] as int) && (before(b[i] as int, b[q] as int) || b[i]
            < b[q]));
        assert(false);
    }
}

/// Every index stands somewhere in an order.
pub proof fn lemma_holds_all(a: Seq<usize>, n: nat, x: int)
    requires
        permutes(a, n),
        0 <= x < n,
    ensures
        exists|p: int| 0 <= p < a.len() && a[p] == x,
{
    let ints = a.map_values(|v: usize| v as int);
    if forall|p: int| 0 <= p < a.len() ==> a[p] != x {
        assert(ints.no_duplicates()) by {
            assert forall|i: int, j: int|
                0 <= i < ints.len() && 0 <= j < ints.len() && i != j implies ints[i] != ints[j] by {
                if i < j {
                    assert(a[i] != a[j]);
                } else {
                    assert(a[j] != a[i]);
                }
            }
        }
        ints.unique_seq_to_set();
        let all = vstd::set_lib::set_int_range(0, n as int);
        vstd::set_lib::lemma_int_range(0, n as int);
        let small = all.remove(x);
        assert(ints.to_set().subset_of(small)) by {
            assert forall|v: int| ints.to_set().contains(v) implies small.contains(v) by {
                let p = choose|p: int| 0 <= p < ints.len() && ints[p] == v;
                assert(a[p] < n);
            }
        }
        vstd::set_lib::lemma_len_subset(ints.to_set(), small);
        assert(false);
    }
}

/// A list whose entries have an order.
pub trait Ranked {
    /// How many entries there are.
    spec fn count(&self) -> nat;

    /// Entry `a` goes before entry `b`.
    spec fn goes_before(&self, a: int, b: int) -> bool;

    /// The number of entries.
    fn size(&self) -> (r: usize)
        ensures
            r == self.count(),
    ;

    /// Whether entry `a` goes before entry `b`.
    fn before(&self, a: usize, b: usize) -> (r: bool)
        requires
            a < self.count(),
            b < self.count(),
        ensures
            r == self.goes_before(a as int, b as int),
    ;
}

/// The order of a list as a relation.
pub open spec fn order_of<T: Ranked>(list: T) -> spec_fn(int, int) -> bool {
    |a: int, b: int| list.goes_before(a, b)
}

/// The indices of a list in its order; entries that the order does not tell
/// apart keep their places.
pub fn order_by<T: Ranked>(list: &T) -> (r: Vec<usize>)
    requires
        weak_order(order_of(*list), list.count()),
    ensures
        permutes(r@, list.count()),
        ordered(r@, order_of(*list)),
{
    let n = list.size();
    let ghost rel = order_of(*list);
    let mut out: Vec<usize> = Vec::new();
    let mut k: usize = 0;
    while k < n
        invariant
            k <= n,
            n == list.count(),
            rel == order_of(*list),
            weak_order(rel, n as nat),
            permutes(out@, k as nat),
            ordered(out@, rel),
        decreases n - k,
    {
        // The new index goes right before the first one that it goes before.
        let mut at: usize = 0;
        while at < out.len() && !list.before(k, out[at])
            invariant
                at <= out.len(),
                k < n,
                n == list.count(),
                rel == order_of(*list),
                permutes(out@, k as nat),
                forall|i: int| 0 <= i < at ==> !rel(k as int, (#[trigger] out@[i]) as int),
            decreases out.len() - at,
        {
            at = at + 1;
        }
        let ghost prev = out@;
        out.insert(at, k);
        proof {
            let now = out@;
            assert forall|i: int| 0 <= i < now.len() implies (#[trigger] now[i]) < k + 1 by {
                if i < at {
                    assert(now[i] == prev[i]);
                } else if i > at {
                    assert(now[i] == prev[i - 1]);
                }
            }
            assert forall|i: int, j: int| 0 <= i < j < now.len() implies (#[trigger] now[i]) != (
            #[trigger] now[j]) by {
                let pi = if i < at {
                    i
                } else {
                    i - 1
                };
                let pj = if j < at {
                    j
                } else {
                    j - 1
                };
                if i != at {
                    assert(now[i] == prev[pi]);
                    assert(prev[pi] < k);
                }
                if j != at {
                    assert(now[j] == prev[pj]);
                    assert(prev[pj] < k);
                }
                if i != at && j != at {
                    assert(prev[pi] != prev[pj]);
                }
            }
            assert forall|i: int, j: int| 0 <= i < j < now.len() implies !rel(
                (#[trigger] now[j]) as int,
                (#[trigger] now[i]) as int,
            ) && (rel(now[i] as int, now[j] as int) || now[i] < now[j]) by {
                let pi = if i < at {
                    i
                } else {
                    i - 1
                };
                let pj = if j < at {
                    j
                } else {
                    j - 1
                };
                if i != at {
                    assert(now[i] == prev[pi]);
                    assert(prev[pi] < k);
                }
                if j != at {
                    assert(now[j] == prev[pj]);
                    assert(prev[pj] < k);
                }
                if i != at && j != at {
                    assert(!rel(prev[pj] as int, prev[pi] as int));
                } else if i == at {
                    // `k` goes before what stood at `at`, and that before the rest.
                    assert(rel(k as int, prev[at as int] as int));
                    if pj > at {
                        assert(!rel(prev[pj] as int, prev[at as int] as int));
                    }
                    assert(rel(k as int, prev[pj] as int));
                } else {
                    assert(!rel(k as int, prev[pi] as int));
                }
            }
        }
        k = k + 1;
    }
    out
}

} // verus!
