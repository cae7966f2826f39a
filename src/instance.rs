use vstd::prelude::*;

verus! {

/// The largest number of items an instance may hold: one bit of a `u32` mask each.
pub const MAX_ITEMS: usize = 32;

/// One item of an instance. Its `id` is the bit that encodes it in a mask
/// built from a list of items.
#[derive(Debug, Clone, Copy, PartialEq, Eq, Structural)]
pub struct KnapItem {
    pub id: usize,
    pub weight: u16,
    pub price: u16,
}

/// An instance of the problem: an identifier, a capacity and the items,
/// whose order fixes the bit of each item when a mask is decoded.
#[derive(Debug)]
pub struct Knapsack {
    pub id: u16,
    pub capacity: u16,
    pub items: Vec<KnapItem>,
}

impl Knapsack {
    /// An instance that the solvers accept: every item fits a bit of the mask.
    pub open spec fn wf(&self) -> bool {
        &&& self.items@.len() <= MAX_ITEMS
        &&& ids_fit_mask(self.items@)
    }
}

/// Every item's identity names a bit of a `u32`.
pub open spec fn ids_fit_mask(items: Seq<KnapItem>) -> bool {
    forall|k: int| 0 <= k < items.len() ==> #[trigger] items[k].id < 32
}

/// Sum of the weights of a list of items.
pub open spec fn total_weight(s: Seq<KnapItem>) -> nat
    decreases s.len(),
{
    if s.len() == 0 {
        0
    } else {
        total_weight(s.drop_last()) + s.last().weight as nat
    }
}

/// Sum of the prices of a list of items.
pub open spec fn total_price(s: Seq<KnapItem>) -> nat
    decreases s.len(),
{
    if s.len() == 0 {
        0
    } else {
        total_price(s.drop_last()) + s.last().price as nat
    }
}

} // verus!
