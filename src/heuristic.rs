use vstd::prelude::*;
use crate::instance::{Knapsack, KnapItem, MAX_ITEMS, ids_fit_mask, total_weight, total_price};
use crate::codec::{mask_of, bitmask_from_items, calc_fitness};
use crate::density::{DensityOrder, density_order, density_order_of};

verus! {

/// The greedy pass over the positions `order` of `items`, as the packed items
/// and their running weight. An item is packed when it fits; otherwise it
/// replaces the item packed last when it is dearer and the exchange fits;
/// otherwise it is skipped.
pub open spec fn greedy(items: Seq<KnapItem>, cap: nat, order: Seq<usize>) -> (Seq<KnapItem>, nat)
    decreases order.len(),
{
    if order.len() == 0 {
        (Seq::empty(), 0)
    } else {
        let (packed, w) = greedy(items, cap, order.drop_last());
        let it = items[order.last() as int];
        if w + it.weight <= cap {
            (packed.push(it), w + it.weight as nat)
        } else if packed.len() > 0 && packed.last().price < it.price && w + it.weight
            - packed.last().weight <= cap {
            (packed.drop_last().push(it), (w + it.weight - packed.last().weight) as nat)
        } else {
            (packed, w)
        }
    }
}

/// The items the heuristic packs from `items` with ranking direction `dir`.
pub open spec fn heuristic_packed(items: Seq<KnapItem>, cap: nat, dir: DensityOrder) -> Seq<KnapItem> {
    greedy(items, cap, density_order_of(items, dir)).0
}

/// What the heuristic returns: weight, price and mask of the items it packs.
pub open spec fn heuristic_outcome(items: Seq<KnapItem>, cap: nat, dir: DensityOrder) -> (nat, nat, u32) {
    let packed = heuristic_packed(items, cap, dir);
    (total_weight(packed), total_price(packed), mask_of(packed))
}

/// The running weight of the greedy pass is the weight of what it packed, and
/// never exceeds the capacity.
pub proof fn lemma_greedy(items: Seq<KnapItem>, cap: nat, order: Seq<usize>)
    requires
        forall|k: int| 0 <= k < order.len() ==> (#[trigger] order[k] as int) < items.len(),
        ids_fit_mask(items),
    ensures
        greedy(items, cap, order).1 == total_weight(greedy(items, cap, order).0),
        greedy(items, cap, order).1 <= cap,
        greedy(items, cap, order).0.len() <= order.len(),
        ids_fit_mask(greedy(items, cap, order).0),
    decreases order.len(),
{
    if order.len() > 0 {
        let init = order.drop_last();
        assert forall|k: int| 0 <= k < init.len() implies (#[trigger] init[k] as int) < items.len() by {
            assert(init[k] == order[k]);
        }
        lemma_greedy(items, cap, init);
        let (packed, w) = greedy(items, cap, init);
        let it = items[order.last() as int];
        assert(order[order.len() - 1] < items.len());
        assert(items[order.last() as int].id < 32);
        assert(packed.push(it).drop_last() == packed);
        if packed.len() > 0 {
            let d = packed.drop_last();
            assert(d.push(it).drop_last() == d);
            assert forall|k: int| 0 <= k < d.push(it).len() implies #[trigger] d.push(it)[k].id < 32 by {
                if k < d.len() {
                    assert(d.push(it)[k] == packed[k]);
                }
            }
        }
        assert forall|k: int| 0 <= k < packed.push(it).len() implies #[trigger] packed.push(it)[k].id < 32 by {
            if k < packed.len() {
                assert(packed.push(it)[k] == packed[k]);
            }
        }
    }
}

/// Ranks the items by density in direction `dir`, packs them greedily with
/// the one-step exchange, and returns the weight, price and mask of the
/// packed items.
pub fn solve_heuristic_ordered(knap: &Knapsack, dir: DensityOrder) -> (r: (u32, u32, u32))
    requires
        knap.wf(),
    ensures
        (r.0 as nat, r.1 as nat, r.2) == heuristic_outcome(knap.items@, knap.capacity as nat, dir),
        r.0 <= knap.capacity,
{
    let ghost items = knap.items@;
    let ghost cap = knap.capacity as nat;
    let order = density_order(&knap.items, dir);
    assert forall|k: int| 0 <= k < order@.len() implies (#[trigger] order@[k] as int) < items.len() by {
        assert(order@.contains(order@[k]));
    }
    let mut packed: Vec<KnapItem> = Vec::new();
    let mut total: u32 = 0;
    let mut i: usize = 0;
    while i < order.len()
        invariant
            items == knap.items@,
            cap == knap.capacity as nat,
            knap.wf(),
            i <= order@.len(),
            forall|k: int| 0 <= k < order@.len() ==> (#[trigger] order@[k] as int) < items.len(),
            (packed@, total as nat) == greedy(items, cap, order@.take(i as int)),
            total <= knap.capacity,
            total == total_weight(packed@),
            packed@.len() <= i,
        decreases order@.len() - i,
    {
        let ghost pre = order@.take(i as int);
        assert(order@.take(i + 1).drop_last() == pre);
        assert(order@[i as int] < items.len());
        let item = knap.items[order[i]];
        if item.weight as u32 + total <= knap.capacity as u32 {
            packed.push(item);
            total = total + item.weight as u32;
        } else if packed.len() > 0 {
            let last = packed[packed.len() - 1];
            assert(last == packed@.last());
            assert(total_weight(packed@) == total_weight(packed@.drop_last()) + last.weight);
            let after = item.weight as u32 + total - last.weight as u32;
            if last.price < item.price && after <= knap.capacity as u32 {
                packed.pop();
                packed.push(item);
                total = after;
            }
        }
        proof {
            lemma_greedy(items, cap, order@.take(i + 1));
        }
        i += 1;
    }
    assert(order@.take(i as int) == order@);
    proof {
        lemma_greedy(items, cap, order@);
    }
    let fitness = calc_fitness(&packed);
    let bitmask = bitmask_from_items(&packed);
    (fitness.0, fitness.1, bitmask)
}

/// The heuristic as `solve` runs it: items ranked by ascending density, which
/// packs the least valuable items first; `solve_heuristic_ordered` takes the
/// direction as a parameter.
pub fn solve_heuristic(knap: &Knapsack) -> (r: (u32, u32, u32))
    requires
        knap.wf(),
    ensures
        (r.0 as nat, r.1 as nat, r.2) == heuristic_outcome(knap.items@, knap.capacity as nat, DensityOrder::Ascending),
        r.0 <= knap.capacity,
{
    solve_heuristic_ordered(knap, DensityOrder::Ascending)
}

} // verus!
