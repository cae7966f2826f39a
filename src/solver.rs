use vstd::prelude::*;
use crate::instance::{Knapsack, KnapItem, total_price};
use crate::codec::selected;
use crate::bruteforce::{solve_bruteforce, bruteforce_outcome, feasible};
use crate::heuristic::{solve_heuristic, heuristic_outcome};
use crate::density::DensityOrder;
use vstd::arithmetic::power2::pow2;

verus! {

/// Nanoseconds in a millisecond.
pub const NANOS_PER_MILLI: u64 = 1_000_000;

/// Which solver produced a solution.
#[derive(Debug, Clone, Copy, PartialEq, Eq, Structural)]
pub enum SolutionType {
    Bruteforce,
    Heuristic,
}

/// The outcome of one solve: the instance's identifier, the chosen mask, the
/// total price and weight of the chosen items, the time spent in nanoseconds,
/// and the solver used.
#[derive(Debug, Clone, Copy)]
pub struct KnapSolution {
    pub knap_id: u16,
    pub bitmask: u32,
    pub price: u32,
    pub weight: u32,
    pub elapsed: u64,
    pub soltype: SolutionType,
}

/// Weight, price and mask that the chosen solver returns on `items` and `cap`.
pub open spec fn solution_outcome(items: Seq<KnapItem>, cap: nat, soltype: SolutionType) -> (nat, nat, u32) {
    match soltype {
        SolutionType::Bruteforce => bruteforce_outcome(items, cap),
        SolutionType::Heuristic => heuristic_outcome(items, cap, DensityOrder::Ascending),
    }
}

/// `s` is what solving `knap` with `soltype` returns, its time aside.
pub open spec fn solves(knap: &Knapsack, soltype: SolutionType, s: KnapSolution) -> bool {
    &&& s.knap_id == knap.id
    &&& s.soltype == soltype
    &&& (s.weight as nat, s.price as nat, s.bitmask) == solution_outcome(knap.items@, knap.capacity as nat, soltype)
}

/// Time between two clock readings, in nanoseconds: whole milliseconds from
/// one millisecond on, exact below it, and zero where the clock went back.
pub open spec fn elapsed_of(start: u64, end: u64) -> u64 {
    if end <= start {
        0
    } else if end - start < NANOS_PER_MILLI {
        (end - start) as u64
    } else {
        ((end - start) / NANOS_PER_MILLI as int * NANOS_PER_MILLI) as u64
    }
}

/// Relies on time::precise_time_ns for a reading of the high-resolution
/// counter; nothing is assumed of its value.
pub assume_specification[ time::precise_time_ns ]() -> u64;

/// Time between two clock readings, in nanoseconds, as a solution records it.
pub fn elapsed_between(start: u64, end: u64) -> (r: u64)
    ensures
        r == elapsed_of(start, end),
        r <= end - start || end <= start,
{
    if end <= start {
        0
    } else {
        let d = end - start;
        if d < NANOS_PER_MILLI {
            d
        } else {
            d / NANOS_PER_MILLI * NANOS_PER_MILLI
        }
    }
}

/// Whether a solution's weight fits the instance's capacity.
pub fn validate(solution: &KnapSolution, knap: &Knapsack) -> (r: bool)
    ensures
        r == (solution.weight <= knap.capacity),
{
    solution.weight <= knap.capacity as u32
}

/// Solves `knap` with the chosen solver and records the time it took.
pub fn solve(knap: &Knapsack, soltype: SolutionType) -> (r: KnapSolution)
    requires
        knap.wf(),
    ensures
        solves(knap, soltype, r),
        r.weight <= knap.capacity,
        soltype == SolutionType::Bruteforce ==> forall|m: u32|
            (m as nat) < pow2(knap.items@.len()) && #[trigger] feasible(knap.items@, knap.capacity as nat, m)
            ==> total_price(selected(knap.items@, m)) <= r.price,
{
    let start = time::precise_time_ns();
    let (weight, price, bitmask) = match soltype {
        SolutionType::Bruteforce => solve_bruteforce(knap),
        SolutionType::Heuristic => solve_heuristic(knap),
    };
    let end = time::precise_time_ns();
    KnapSolution {
        knap_id: knap.id,
        bitmask: bitmask,
        price: price,
        weight: weight,
        elapsed: elapsed_between(start, end),
        soltype: soltype,
    }
}

/// Solving one instance twice with one solver gives the same weight, price and
/// mask; only the time may differ.
pub proof fn lemma_solve_repeatable(knap: &Knapsack, soltype: SolutionType, first: KnapSolution, second: KnapSolution)
    requires
        solves(knap, soltype, first),
        solves(knap, soltype, second),
    ensures
        first.weight == second.weight,
        first.price == second.price,
        first.bitmask == second.bitmask,
{
}

} // verus!
