use vstd::prelude::*;
use vstd::arithmetic::power2::{pow2, lemma2_to64, lemma_pow2_strictly_increases, lemma_pow2_adds};
use crate::instance::{Knapsack, KnapItem, MAX_ITEMS, total_weight, total_price};
use crate::codec::{selected, items_from_bmask, calc_fitness, lemma_zero_bit};

verus! {

/// The best of the masks below `k`, tried from 0 upwards: a mask replaces the
/// best so far when its items fit `cap` and its price is strictly greater.
/// Before any mask the best is the empty selection.
pub open spec fn best_below(items: Seq<KnapItem>, cap: nat, k: nat) -> (nat, nat, u32)
    decreases k,
{
    if k == 0 {
        (0, 0, 0)
    } else {
        let b = best_below(items, cap, (k - 1) as nat);
        let m = (k - 1) as u32;
        let w = total_weight(selected(items, m));
        let p = total_price(selected(items, m));
        if w <= cap && p > b.1 {
            (w, p, m)
        } else {
            b
        }
    }
}

/// Whether the items that `m` selects fit `cap`.
pub open spec fn feasible(items: Seq<KnapItem>, cap: nat, m: u32) -> bool {
    total_weight(selected(items, m)) <= cap
}

/// What the exhaustive search returns: the best of all `2^n` masks.
pub open spec fn bruteforce_outcome(items: Seq<KnapItem>, cap: nat) -> (nat, nat, u32) {
    best_below(items, cap, pow2(items.len()))
}

/// The best of the masks below `k` is feasible, its weight and price are those
/// of the items it selects, and no feasible mask below `k` has a higher price.
pub proof fn lemma_best_below(items: Seq<KnapItem>, cap: nat, k: nat)
    requires
        k <= 0x1_0000_0000,
    ensures
        ({
            let b = best_below(items, cap, k);
            &&& b.0 <= cap
            &&& b.0 == total_weight(selected(items, b.2))
            &&& b.1 == total_price(selected(items, b.2))
            &&& (k == 0 || b.2 < k)
            &&& forall|m: u32| m < k && #[trigger] feasible(items, cap, m)
                ==> total_price(selected(items, m)) <= b.1
        }),
    decreases k,
{
    if k == 0 {
        lemma_empty_selection(items, 0);
    } else {
        lemma_best_below(items, cap, (k - 1) as nat);
        let b = best_below(items, cap, k);
        assert forall|m: u32| m < k && #[trigger] feasible(items, cap, m)
            implies total_price(selected(items, m)) <= b.1 by {
            if m < k - 1 {
            } else {
                assert(m == (k - 1) as u32);
            }
        }
    }
}

proof fn lemma_empty_selection(items: Seq<KnapItem>, m: u32)
    requires
        m == 0,
    ensures
        total_weight(selected(items, m)) == 0,
        total_price(selected(items, m)) == 0,
    decreases items.len(),
{
    if items.len() > 0 {
        lemma_empty_selection(items.drop_last(), m);
        if items.len() - 1 < 32 {
            lemma_zero_bit((items.len() - 1) as u32);
        }
    }
}

/// Tries every mask of the instance's items, from 0 up to `2^n - 1`, and
/// returns the weight, price and mask of the first one of greatest price among
/// those that fit the capacity.
pub fn solve_bruteforce(knap: &Knapsack) -> (r: (u32, u32, u32))
    requires
        knap.items@.len() <= MAX_ITEMS,
    ensures
        (r.0 as nat, r.1 as nat, r.2) == bruteforce_outcome(knap.items@, knap.capacity as nat),
        r.0 <= knap.capacity,
        r.0 == total_weight(selected(knap.items@, r.2)),
        r.1 == total_price(selected(knap.items@, r.2)),
        forall|m: u32| (m as nat) < pow2(knap.items@.len()) && #[trigger] feasible(knap.items@, knap.capacity as nat, m)
            ==> total_price(selected(knap.items@, m)) <= r.1,
{
    let ghost items = knap.items@;
    let ghost cap = knap.capacity as nat;
    let n = knap.items.len();
    let mut max_bitmask: u64 = 1;
    let mut j: usize = 0;
    proof {
        lemma2_to64();
    }
    while j < n
        invariant
            n == items.len() <= MAX_ITEMS,
            j <= n,
            max_bitmask == pow2(j as nat),
            pow2(32) == 0x1_0000_0000,
            pow2(1) == 2,
        decreases n - j,
    {
        proof {
            lemma_pow2_strictly_increases(j as nat, 32);
            lemma_pow2_adds(j as nat, 1);
        }
        assert(pow2((j + 1) as nat) == 2 * pow2(j as nat));
        max_bitmask = max_bitmask * 2;
        j += 1;
    }
    if n < 32 {
        proof {
            lemma_pow2_strictly_increases(n as nat, 32);
        }
    }
    let mut best: (u32, u32, u32) = (0, 0, 0);
    let mut bitmask: u64 = 0;
    while bitmask < max_bitmask
        invariant
            items == knap.items@,
            cap == knap.capacity as nat,
            items.len() <= MAX_ITEMS,
            max_bitmask == pow2(items.len()),
            max_bitmask <= 0x1_0000_0000,
            bitmask <= max_bitmask,
            (best.0 as nat, best.1 as nat, best.2) == best_below(items, cap, bitmask as nat),
        decreases max_bitmask - bitmask,
    {
        let chosen = items_from_bmask(knap, bitmask as u32);
        let fitness = calc_fitness(&chosen);
        proof {
            lemma_best_below(items, cap, bitmask as nat);
        }
        if fitness.0 <= knap.capacity as u32 && fitness.1 > best.1 {
            best = (fitness.0, fitness.1, bitmask as u32);
        }
        bitmask = bitmask + 1;
    }
    proof {
        lemma_best_below(items, cap, max_bitmask as nat);
    }
    best
}

} // verus!
