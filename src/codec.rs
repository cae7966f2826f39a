use vstd::prelude::*;
use crate::instance::{KnapItem, Knapsack, MAX_ITEMS, ids_fit_mask, total_weight, total_price};

verus! {

/// Whether bit `i` of mask `m` is set.
pub open spec fn has_bit(m: u32, i: int) -> bool {
    0 <= i < 32 && (m >> (i as u32)) & 1u32 == 1u32
}

/// The items whose position in `items` is a set bit of `m`, in their order.
pub open spec fn selected(items: Seq<KnapItem>, m: u32) -> Seq<KnapItem>
    decreases items.len(),
{
    if items.len() == 0 {
        Seq::empty()
    } else {
        let rest = selected(items.drop_last(), m);
        if has_bit(m, items.len() - 1) {
            rest.push(items.last())
        } else {
            rest
        }
    }
}

/// The mask with the bit of each item's identity set.
pub open spec fn mask_of(items: Seq<KnapItem>) -> u32
    decreases items.len(),
{
    if items.len() == 0 {
        0
    } else {
        mask_of(items.drop_last()) | (1u32 << (items.last().id as u32))
    }
}

proof fn lemma_and_shift(m: u32, i: u32)
    requires
        i < 32,
    ensures
        (m & (1u32 << i) != 0) == ((m >> i) & 1u32 == 1u32),
{
    assert((m & (1u32 << i) != 0) == ((m >> i) & 1u32 == 1u32)) by (bit_vector)
        requires
            i < 32,
    ;
}

proof fn lemma_or_bit(a: u32, k: u32, i: u32)
    requires
        k < 32,
        i < 32,
    ensures
        (((a | (1u32 << k)) >> i) & 1u32 == 1u32) == (((a >> i) & 1u32 == 1u32) || i == k),
{
    assert((((a | (1u32 << k)) >> i) & 1u32 == 1u32) == (((a >> i) & 1u32 == 1u32) || i == k))
        by (bit_vector)
        requires
            k < 32,
            i < 32,
    ;
}

pub(crate) proof fn lemma_zero_bit(i: u32)
    requires
        i < 32,
    ensures
        (0u32 >> i) & 1u32 != 1u32,
{
    assert((0u32 >> i) & 1u32 != 1u32) by (bit_vector);
}

/// A bit of the mask of a list is set exactly where some item of the list has
/// that identity.
pub proof fn lemma_mask_bits(items: Seq<KnapItem>, i: int)
    requires
        ids_fit_mask(items),
        0 <= i < 32,
    ensures
        has_bit(mask_of(items), i) <==> exists|j: int| 0 <= j < items.len() && #[trigger] items[j].id == i,
    decreases items.len(),
{
    if items.len() == 0 {
        lemma_zero_bit(i as u32);
    } else {
        let init = items.drop_last();
        assert forall|k: int| 0 <= k < init.len() implies #[trigger] init[k].id < 32 by {
            assert(init[k] == items[k]);
        }
        lemma_mask_bits(init, i);
        lemma_or_bit(mask_of(init), items.last().id as u32, i as u32);
        if exists|j: int| 0 <= j < items.len() && #[trigger] items[j].id == i {
            let j = choose|j: int| 0 <= j < items.len() && #[trigger] items[j].id == i;
            if j < init.len() {
                assert(init[j] == items[j]);
            }
        }
        if exists|j: int| 0 <= j < init.len() && #[trigger] init[j].id == i {
            let j = choose|j: int| 0 <= j < init.len() && #[trigger] init[j].id == i;
            assert(items[j] == init[j]);
        }
        if items.last().id == i {
            assert(items[items.len() - 1].id == i);
        }
    }
}

/// An item is selected by a mask exactly when it stands at a position whose bit is set.
pub proof fn lemma_selected_contains(items: Seq<KnapItem>, m: u32, x: KnapItem)
    ensures
        selected(items, m).contains(x) <==> exists|i: int|
            0 <= i < items.len() && has_bit(m, i) && #[trigger] items[i] == x,
    decreases items.len(),
{
    if items.len() > 0 {
        let init = items.drop_last();
        let rest = selected(init, m);
        lemma_selected_contains(init, m, x);
        if exists|i: int| 0 <= i < init.len() && has_bit(m, i) && #[trigger] init[i] == x {
            let i = choose|i: int| 0 <= i < init.len() && has_bit(m, i) && #[trigger] init[i] == x;
            assert(items[i] == init[i]);
        }
        if exists|i: int| 0 <= i < items.len() && has_bit(m, i) && #[trigger] items[i] == x {
            let i = choose|i: int| 0 <= i < items.len() && has_bit(m, i) && #[trigger] items[i] == x;
            if i < init.len() {
                assert(init[i] == items[i]);
            } else {
                assert(selected(items, m) == rest.push(x));
                assert(selected(items, m)[rest.len() as int] == x);
            }
        }
        if has_bit(m, items.len() - 1) {
            let s = rest.push(items.last());
            if s.contains(x) {
                let k = choose|k: int| 0 <= k < s.len() && s[k] == x;
                if k < rest.len() {
                    assert(rest[k] == x);
                } else {
                    assert(items[items.len() - 1] == x);
                }
            }
            if rest.contains(x) {
                let k = choose|k: int| 0 <= k < rest.len() && rest[k] == x;
                assert(s[k] == x);
            }
        }
    }
}

/// Encoding a subset of an instance's items as a mask and decoding the mask
/// against the instance gives back the same items, as a set, when each item's
/// identity is its position.
pub proof fn lemma_mask_round_trip(items: Seq<KnapItem>, subset: Seq<KnapItem>)
    requires
        items.len() <= MAX_ITEMS,
        forall|i: int| 0 <= i < items.len() ==> #[trigger] items[i].id == i,
        forall|k: int| 0 <= k < subset.len() ==> items.contains(#[trigger] subset[k]),
    ensures
        selected(items, mask_of(subset)).to_set() == subset.to_set(),
{
    let m = mask_of(subset);
    assert forall|k: int| 0 <= k < subset.len() implies #[trigger] subset[k].id < 32 by {
        assert(items.contains(subset[k]));
        let i = choose|i: int| 0 <= i < items.len() && items[i] == subset[k];
        assert(items[i].id == i);
    }
    assert forall|x: KnapItem| selected(items, m).contains(x) <==> subset.contains(x) by {
        lemma_selected_contains(items, m, x);
        if selected(items, m).contains(x) {
            let i = choose|i: int| 0 <= i < items.len() && has_bit(m, i) && #[trigger] items[i] == x;
            lemma_mask_bits(subset, i);
            let j = choose|j: int| 0 <= j < subset.len() && #[trigger] subset[j].id == i;
            assert(items.contains(subset[j]));
            let i2 = choose|i2: int| 0 <= i2 < items.len() && items[i2] == subset[j];
            assert(items[i2].id == i2);
            assert(items[i].id == i);
            assert(subset[j] == x);
        }
        if subset.contains(x) {
            let j = choose|j: int| 0 <= j < subset.len() && subset[j] == x;
            assert(items.contains(subset[j]));
            let i = choose|i: int| 0 <= i < items.len() && items[i] == subset[j];
            assert(items[i].id == i);
            lemma_mask_bits(subset, i);
            assert(has_bit(m, i));
            assert(items[i] == x);
        }
    }
    assert(selected(items, m).to_set() =~= subset.to_set());
}

/// The items of `knap` whose position is a set bit of `bitmask`, in instance order.
/// Bits past the last position select nothing.
pub fn items_from_bmask(knap: &Knapsack, bitmask: u32) -> (r: Vec<KnapItem>)
    requires
        knap.items@.len() <= MAX_ITEMS,
    ensures
        r@ == selected(knap.items@, bitmask),
        r@.len() <= knap.items@.len(),
{
    let n = knap.items.len();
    let mut r: Vec<KnapItem> = Vec::new();
    let mut i: usize = 0;
    while i < n
        invariant
            n == knap.items@.len() <= MAX_ITEMS,
            i <= n,
            r@ == selected(knap.items@.take(i as int), bitmask),
        decreases n - i,
    {
        proof {
            lemma_and_shift(bitmask, i as u32);
            assert(knap.items@.take(i + 1).drop_last() == knap.items@.take(i as int));
        }
        if bitmask & (1u32 << i as u32) != 0 {
            r.push(knap.items[i]);
        }
        i += 1;
    }
    assert(knap.items@.take(n as int) == knap.items@);
    proof {
        lemma_selected_len(knap.items@, bitmask);
    }
    r
}

proof fn lemma_selected_len(items: Seq<KnapItem>, m: u32)
    ensures
        selected(items, m).len() <= items.len(),
    decreases items.len(),
{
    if items.len() > 0 {
        lemma_selected_len(items.drop_last(), m);
    }
}

/// The mask with the bit of each item's identity set. It decodes back to the
/// same items only where each identity is the item's position in its instance.
pub fn bitmask_from_items(items: &Vec<KnapItem>) -> (r: u32)
    requires
        ids_fit_mask(items@),
    ensures
        r == mask_of(items@),
{
    let mut acc: u32 = 0;
    let mut i: usize = 0;
    while i < items.len()
        invariant
            ids_fit_mask(items@),
            i <= items@.len(),
            acc == mask_of(items@.take(i as int)),
        decreases items@.len() - i,
    {
        assert(items@.take(i + 1).drop_last() == items@.take(i as int));
        assert(items[i as int].id < 32);
        acc = acc | (1u32 << (items[i].id as u32));
        i += 1;
    }
    assert(items@.take(i as int) == items@);
    acc
}

proof fn lemma_totals_bounded(s: Seq<KnapItem>)
    ensures
        total_weight(s) <= 65535 * s.len(),
        total_price(s) <= 65535 * s.len(),
    decreases s.len(),
{
    if s.len() > 0 {
        lemma_totals_bounded(s.drop_last());
    }
}

/// Total weight and total price of a list of items.
pub fn calc_fitness(items: &Vec<KnapItem>) -> (r: (u32, u32))
    requires
        items@.len() <= MAX_ITEMS,
    ensures
        r.0 == total_weight(items@),
        r.1 == total_price(items@),
{
    let mut w: u32 = 0;
    let mut p: u32 = 0;
    let mut i: usize = 0;
    while i < items.len()
        invariant
            items@.len() <= MAX_ITEMS,
            i <= items@.len(),
            w == total_weight(items@.take(i as int)),
            p == total_price(items@.take(i as int)),
        decreases items@.len() - i,
    {
        proof {
            assert(items@.take(i + 1).drop_last() == items@.take(i as int));
            lemma_totals_bounded(items@.take(i as int));
        }
        w = w + items[i].weight as u32;
        p = p + items[i].price as u32;
        i += 1;
    }
    assert(items@.take(i as int) == items@);
    (w, p)
}

} // verus!
