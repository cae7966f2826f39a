use vstd::prelude::*;
use crate::instance::{KnapItem, MAX_ITEMS};

verus! {

/// Density that stands for an item of zero weight: above every price/weight quotient.
pub const ZERO_WEIGHT_DENSITY: u32 = 65536;

/// The direction in which the heuristic ranks items by density before packing.
#[derive(Debug, Clone, Copy, PartialEq, Eq, Structural)]
pub enum DensityOrder {
    Ascending,
    Descending,
}

/// Value density of an item: price divided by weight, rounded down.
pub open spec fn density_of(it: KnapItem) -> nat {
    if it.weight == 0 {
        ZERO_WEIGHT_DENSITY as nat
    } else {
        (it.price / it.weight) as nat
    }
}

/// Whether position `a` comes before position `b`: by density in the given
/// direction, and by position among equal densities.
pub open spec fn precedes(items: Seq<KnapItem>, dir: DensityOrder, a: usize, b: usize) -> bool {
    let da = density_of(items[a as int]);
    let db = density_of(items[b as int]);
    match dir {
        DensityOrder::Ascending => da < db || (da == db && a < b),
        DensityOrder::Descending => da > db || (da == db && a < b),
    }
}

/// `o` lists each position of `items` once, ranked by `precedes`.
pub open spec fn is_density_order(items: Seq<KnapItem>, dir: DensityOrder, o: Seq<usize>) -> bool {
    &&& forall|x: usize| o.contains(x) <==> x < items.len()
    &&& forall|i: int, j: int| 0 <= i < j < o.len() ==> precedes(items, dir, #[trigger] o[i], #[trigger] o[j])
}

/// The one ranking of the positions of `items` in the given direction.
pub open spec fn density_order_of(items: Seq<KnapItem>, dir: DensityOrder) -> Seq<usize> {
    choose|o: Seq<usize>| is_density_order(items, dir, o)
}

/// Two ranked lists of the same positions are equal.
pub proof fn lemma_ranked_unique(items: Seq<KnapItem>, dir: DensityOrder, a: Seq<usize>, b: Seq<usize>)
    requires
        forall|x: usize| a.contains(x) <==> b.contains(x),
        forall|x: usize| #[trigger] a.contains(x) ==> x < items.len(),
        forall|i: int, j: int| 0 <= i < j < a.len() ==> precedes(items, dir, #[trigger] a[i], #[trigger] a[j]),
        forall|i: int, j: int| 0 <= i < j < b.len() ==> precedes(items, dir, #[trigger] b[i], #[trigger] b[j]),
    ensures
        a == b,
    decreases a.len(),
{
    if a.len() == 0 {
        if b.len() > 0 {
            assert(b.contains(b[0]));
        }
        assert(a =~= b);
    } else {
        assert(a.contains(a[0]));
        assert(b.len() > 0);
        assert(b.contains(b[0]));
        let kb = choose|k: int| 0 <= k < b.len() && b[k] == a[0];
        let ka = choose|k: int| 0 <= k < a.len() && a[k] == b[0];
        if ka > 0 {
            assert(precedes(items, dir, a[0], a[ka]));
        }
        if kb > 0 {
            assert(precedes(items, dir, b[0], b[kb]));
        }
        assert(a[0] == b[0]);
        let ta = a.drop_first();
        let tb = b.drop_first();
        assert forall|x: usize| ta.contains(x) <==> tb.contains(x) by {
            if ta.contains(x) {
                let k = choose|k: int| 0 <= k < ta.len() && ta[k] == x;
                assert(a[k + 1] == x);
                assert(precedes(items, dir, a[0], a[k + 1]));
                assert(b.contains(x));
                let k2 = choose|k2: int| 0 <= k2 < b.len() && b[k2] == x;
                assert(k2 != 0);
                assert(tb[k2 - 1] == x);
            }
            if tb.contains(x) {
                let k = choose|k: int| 0 <= k < tb.len() && tb[k] == x;
                assert(b[k + 1] == x);
                assert(precedes(items, dir, b[0], b[k + 1]));
                assert(a.contains(x));
                let k2 = choose|k2: int| 0 <= k2 < a.len() && a[k2] == x;
                assert(k2 != 0);
                assert(ta[k2 - 1] == x);
            }
        }
        assert forall|x: usize| #[trigger] ta.contains(x) implies x < items.len() by {
            let k = choose|k: int| 0 <= k < ta.len() && ta[k] == x;
            assert(a[k + 1] == x);
            assert(a.contains(x));
        }
        assert forall|i: int, j: int| 0 <= i < j < ta.len() implies precedes(items, dir, #[trigger] ta[i], #[trigger] ta[j]) by {
            assert(ta[i] == a[i + 1] && ta[j] == a[j + 1]);
        }
        assert forall|i: int, j: int| 0 <= i < j < tb.len() implies precedes(items, dir, #[trigger] tb[i], #[trigger] tb[j]) by {
            assert(tb[i] == b[i + 1] && tb[j] == b[j + 1]);
        }
        lemma_ranked_unique(items, dir, ta, tb);
        assert(a =~= seq![a[0]] + ta);
        assert(b =~= seq![b[0]] + tb);
    }
}

/// A list that is a ranking of the positions of `items` is the one that
/// `density_order_of` names.
pub proof fn lemma_density_order_unique(items: Seq<KnapItem>, dir: DensityOrder, o: Seq<usize>)
    requires
        is_density_order(items, dir, o),
    ensures
        density_order_of(items, dir) == o,
{
    let c = density_order_of(items, dir);
    assert(is_density_order(items, dir, c));
    assert forall|x: usize| #[trigger] o.contains(x) implies x < items.len() by {}
    lemma_ranked_unique(items, dir, o, c);
}

/// Value density of an item, with zero weight ranked above every quotient.
pub fn density(it: &KnapItem) -> (r: u32)
    ensures
        r == density_of(*it),
{
    if it.weight == 0 {
        ZERO_WEIGHT_DENSITY
    } else {
        (it.price / it.weight) as u32
    }
}

fn precedes_exec(items: &Vec<KnapItem>, dir: DensityOrder, a: usize, b: usize) -> (r: bool)
    requires
        a < items@.len(),
        b < items@.len(),
    ensures
        r == precedes(items@, dir, a, b),
{
    let da = density(&items[a]);
    let db = density(&items[b]);
    match dir {
        DensityOrder::Ascending => da < db || (da == db && a < b),
        DensityOrder::Descending => da > db || (da == db && a < b),
    }
}

/// The positions of `items` ranked by density in the given direction, ties by position.
pub fn density_order(items: &Vec<KnapItem>, dir: DensityOrder) -> (r: Vec<usize>)
    requires
        items@.len() <= MAX_ITEMS,
    ensures
        is_density_order(items@, dir, r@),
        r@ == density_order_of(items@, dir),
        r@.len() == items@.len(),
{
    let n = items.len();
    let mut order: Vec<usize> = Vec::new();
    let mut i: usize = 0;
    while i < n
        invariant
            n == items@.len() <= MAX_ITEMS,
            i <= n,
            order@.len() == i,
            forall|x: usize| order@.contains(x) <==> x < i,
            forall|a: int, b: int| 0 <= a < b < order@.len()
                ==> precedes(items@, dir, #[trigger] order@[a], #[trigger] order@[b]),
        decreases n - i,
    {
        let mut p: usize = 0;
        assert forall|q: int| 0 <= q < order@.len() implies #[trigger] order@[q] < i by {
            assert(order@.contains(order@[q]));
        }
        while p < order.len() && !precedes_exec(items, dir, i, order[p])
            invariant
                n == items@.len(),
                i < n,
                order@.len() == i,
                p <= order@.len(),
                forall|x: usize| order@.contains(x) <==> x < i,
                forall|q: int| 0 <= q < order@.len() ==> #[trigger] order@[q] < i,
                forall|q: int| 0 <= q < p ==> precedes(items@, dir, #[trigger] order@[q], i),
            decreases order@.len() - p,
        {
            assert(order@.contains(order@[p as int]));
            p += 1;
        }
        let ghost old_order = order@;
        proof {
            assert forall|q: int| p <= q < old_order.len() implies precedes(items@, dir, i, #[trigger] old_order[q]) by {
                assert(old_order.contains(old_order[q]));
                if q > p {
                    assert(precedes(items@, dir, old_order[p as int], old_order[q]));
                }
            }
        }
        order.insert(p, i);
        proof {
            let s = order@;
            assert(s == old_order.insert(p as int, i));
            assert forall|x: usize| s.contains(x) <==> x < i + 1 by {
                if s.contains(x) {
                    let k = choose|k: int| 0 <= k < s.len() && s[k] == x;
                    if k < p {
                        assert(old_order[k] == x);
                        assert(old_order.contains(x));
                    } else if k > p {
                        assert(old_order[k - 1] == x);
                        assert(old_order.contains(x));
                    }
                }
                if x < i + 1 {
                    if x == i {
                        assert(s[p as int] == x);
                    } else {
                        assert(old_order.contains(x));
                        let k = choose|k: int| 0 <= k < old_order.len() && old_order[k] == x;
                        if k < p {
                            assert(s[k] == x);
                        } else {
                            assert(s[k + 1] == x);
                        }
                    }
                }
            }
            assert forall|a: int, b: int| 0 <= a < b < s.len()
                implies precedes(items@, dir, #[trigger] s[a], #[trigger] s[b]) by {
                if b < p {
                    assert(s[a] == old_order[a] && s[b] == old_order[b]);
                } else if b == p {
                    assert(s[a] == old_order[a]);
                } else if a < p {
                    assert(s[a] == old_order[a] && s[b] == old_order[b - 1]);
                } else if a == p {
                    assert(s[b] == old_order[b - 1]);
                } else {
                    assert(s[a] == old_order[a - 1] && s[b] == old_order[b - 1]);
                }
            }
        }
        i += 1;
    }
    proof {
        lemma_density_order_unique(items@, dir, order@);
    }
    order
}

} // verus!
