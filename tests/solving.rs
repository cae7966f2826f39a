use knapsack::bruteforce::solve_bruteforce;
use knapsack::codec::{bitmask_from_items, calc_fitness, items_from_bmask};
use knapsack::density::{density, density_order, DensityOrder};
use knapsack::heuristic::{solve_heuristic, solve_heuristic_ordered};
use knapsack::instance::{KnapItem, Knapsack};
use knapsack::solver::{elapsed_between, solve, validate, KnapSolution, SolutionType};

fn instance(capacity: u16, items: &[(u16, u16)]) -> Knapsack {
    Knapsack {
        id: 7,
        capacity,
        items: items
            .iter()
            .enumerate()
            .map(|(i, &(weight, price))| KnapItem { id: i, weight, price })
            .collect(),
    }
}

fn triple(s: &KnapSolution) -> (u32, u32, u32) {
    (s.weight, s.price, s.bitmask)
}

fn both(knap: &Knapsack) -> ((u32, u32, u32), (u32, u32, u32)) {
    let b = solve(knap, SolutionType::Bruteforce);
    let h = solve(knap, SolutionType::Heuristic);
    assert_eq!(b.soltype, SolutionType::Bruteforce);
    assert_eq!(h.soltype, SolutionType::Heuristic);
    assert_eq!(b.knap_id, 7);
    (triple(&b), triple(&h))
}

/// Independent exhaustive check: best feasible price over all subsets.
fn best_price(knap: &Knapsack) -> u32 {
    let n = knap.items.len();
    let mut best = 0u32;
    for m in 0u64..(1u64 << n) {
        let mut w = 0u32;
        let mut p = 0u32;
        for (i, it) in knap.items.iter().enumerate() {
            if m >> i & 1 == 1 {
                w += it.weight as u32;
                p += it.price as u32;
            }
        }
        if w <= knap.capacity as u32 && p > best {
            best = p;
        }
    }
    best
}

fn sample(n: usize, capacity: u16) -> Knapsack {
    let items: Vec<(u16, u16)> = (0..n)
        .map(|i| (((i * 7 + 3) % 13 + 1) as u16, ((i * 11 + 5) % 17 + 2) as u16))
        .collect();
    instance(capacity, &items)
}

#[test]
fn three_items_capacity_ten() {
    let knap = instance(10, &[(5, 10), (4, 4), (6, 12)]);
    let (b, h) = both(&knap);
    // {1, 2} weighs exactly 10 and is worth 16: the feasible optimum.
    assert_eq!(b, (10, 16, 0b110));
    assert_eq!(best_price(&knap), 16);
    assert_eq!(h, (10, 16, 0b110));
}

#[test]
fn empty_instance() {
    let knap = instance(5, &[]);
    let (b, h) = both(&knap);
    assert_eq!(b, (0, 0, 0));
    assert_eq!(h, (0, 0, 0));
}

#[test]
fn single_item_too_heavy() {
    let knap = instance(2, &[(3, 7)]);
    let (b, h) = both(&knap);
    assert_eq!(b, (0, 0, 0));
    assert_eq!(h, (0, 0, 0));
}

#[test]
fn single_item_fits() {
    let knap = instance(5, &[(3, 7)]);
    let (b, h) = both(&knap);
    assert_eq!(b, (3, 7, 1));
    assert_eq!(h, (3, 7, 1));
}

#[test]
fn bruteforce_is_feasible_and_optimal() {
    for n in 0..=12 {
        for cap in [0u16, 5, 17, 40] {
            let knap = sample(n, cap);
            let (w, p, m) = solve_bruteforce(&knap);
            assert!(w <= cap as u32);
            assert_eq!(p, best_price(&knap));
            let (fw, fp) = calc_fitness(&items_from_bmask(&knap, m));
            assert_eq!((fw, fp), (w, p));
        }
    }
}

#[test]
fn bruteforce_sixteen_items() {
    let knap = sample(16, 30);
    let (w, p, _) = solve_bruteforce(&knap);
    assert!(w <= 30);
    assert_eq!(p, best_price(&knap));
}

#[test]
fn bruteforce_ties_keep_lowest_mask() {
    let knap = instance(4, &[(4, 9), (4, 9)]);
    assert_eq!(solve_bruteforce(&knap), (4, 9, 1));
}

#[test]
fn heuristic_is_feasible() {
    for n in 0..=32 {
        for cap in [0u16, 5, 17, 40, 200] {
            let knap = sample(n, cap);
            let (w, p, m) = solve_heuristic(&knap);
            assert!(w <= cap as u32);
            let (fw, fp) = calc_fitness(&items_from_bmask(&knap, m));
            assert_eq!((fw, fp), (w, p));
        }
    }
}

#[test]
fn heuristic_first_item_too_heavy_is_skipped() {
    let knap = instance(5, &[(10, 1), (4, 2)]);
    // densities 0 and 0: item 0 is skipped with nothing to exchange, item 1 packed
    assert_eq!(solve_heuristic(&knap), (4, 2, 0b10));
}

#[test]
fn heuristic_exchanges_last_item() {
    let knap = instance(4, &[(2, 2), (2, 8), (3, 3)]);
    assert_eq!(solve_heuristic(&knap), (2, 8, 0b010));
    assert_eq!(solve_heuristic_ordered(&knap, DensityOrder::Ascending), (2, 8, 0b010));
    assert_eq!(solve_heuristic_ordered(&knap, DensityOrder::Descending), (4, 10, 0b011));
    assert_eq!(solve_bruteforce(&knap), (4, 10, 0b011));
}

#[test]
fn heuristic_zero_weight_item() {
    let knap = instance(3, &[(0, 5), (3, 3)]);
    assert_eq!(density(&knap.items[0]), 65536);
    assert_eq!(density_order(&knap.items, DensityOrder::Ascending), vec![1, 0]);
    assert_eq!(solve_heuristic(&knap), (3, 8, 0b11));
}

#[test]
fn density_ranking() {
    let knap = instance(10, &[(5, 10), (4, 4), (6, 12), (2, 1)]);
    assert_eq!(density(&knap.items[0]), 2);
    assert_eq!(density(&knap.items[3]), 0);
    assert_eq!(density_order(&knap.items, DensityOrder::Ascending), vec![3, 1, 0, 2]);
    assert_eq!(density_order(&knap.items, DensityOrder::Descending), vec![0, 2, 1, 3]);
}

#[test]
fn decode_ignores_high_bits() {
    let knap = instance(10, &[(1, 2), (3, 4), (5, 6)]);
    let items = items_from_bmask(&knap, 0b1101);
    assert_eq!(items, vec![knap.items[0], knap.items[2]]);
    assert!(items_from_bmask(&knap, 0).is_empty());
}

#[test]
fn encode_uses_identities() {
    let items = vec![
        KnapItem { id: 3, weight: 1, price: 1 },
        KnapItem { id: 5, weight: 1, price: 1 },
    ];
    assert_eq!(bitmask_from_items(&items), 0b101000);
    assert_eq!(bitmask_from_items(&vec![]), 0);
}

#[test]
fn mask_round_trip() {
    let knap = instance(10, &[(1, 2), (3, 4), (5, 6), (7, 8), (9, 10)]);
    let subset = vec![knap.items[4], knap.items[1]];
    let back = items_from_bmask(&knap, bitmask_from_items(&subset));
    assert_eq!(back, vec![knap.items[1], knap.items[4]]);
}

#[test]
fn fitness_sums() {
    let items = vec![
        KnapItem { id: 0, weight: 5, price: 10 },
        KnapItem { id: 2, weight: 6, price: 12 },
    ];
    assert_eq!(calc_fitness(&items), (11, 22));
    assert_eq!(calc_fitness(&vec![]), (0, 0));
    let heavy = vec![KnapItem { id: 0, weight: 65535, price: 65535 }; 32];
    assert_eq!(calc_fitness(&heavy), (65535 * 32, 65535 * 32));
}

#[test]
fn solving_twice_agrees() {
    let knap = sample(10, 25);
    for st in [SolutionType::Bruteforce, SolutionType::Heuristic] {
        let a = solve(&knap, st);
        let b = solve(&knap, st);
        assert_eq!(triple(&a), triple(&b));
    }
}

#[test]
fn elapsed_times() {
    assert_eq!(elapsed_between(100, 50), 0);
    assert_eq!(elapsed_between(100, 100), 0);
    assert_eq!(elapsed_between(100, 600), 500);
    assert_eq!(elapsed_between(0, 999_999), 999_999);
    assert_eq!(elapsed_between(0, 2_500_000), 2_000_000);
    let s = solve(&sample(8, 20), SolutionType::Bruteforce);
    assert!(s.elapsed < 60_000_000_000);
}

#[test]
fn validation() {
    let knap = instance(5, &[(3, 7)]);
    let mut s = solve(&knap, SolutionType::Heuristic);
    assert!(validate(&s, &knap));
    s.weight = 5;
    assert!(validate(&s, &knap));
    s.weight = 6;
    assert!(!validate(&s, &knap));
}
