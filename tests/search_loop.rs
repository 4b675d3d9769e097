use rand::rngs::StdRng;
use rand::SeedableRng;
use tabu_tsp::error::SearchError;
use tabu_tsp::geometry::Coordinate;
use tabu_tsp::neighborhood::Edge;
use tabu_tsp::search::{
    apply_batch, generate_batch, generate_candidate, random_permutation, run_search, search, select_best,
    update_current_and_best, Candidate,
};
use tabu_tsp::tour::cost;

fn unit_square() -> Vec<Coordinate> {
    vec![Coordinate(0, 0), Coordinate(0, 1), Coordinate(1, 1), Coordinate(1, 0)]
}

fn small_map() -> Vec<Coordinate> {
    vec![
        Coordinate(1, 1),
        Coordinate(689, 291),
        Coordinate(801, 724),
        Coordinate(388, 143),
        Coordinate(143, 832),
        Coordinate(485, 484),
        Coordinate(627, 231),
        Coordinate(610, 311),
        Coordinate(549, 990),
        Coordinate(220, 28),
        Coordinate(66, 496),
        Coordinate(693, 988),
    ]
}

fn is_perm(p: &[usize], n: usize) -> bool {
    let mut sorted = p.to_vec();
    sorted.sort();
    sorted == (0..n).collect::<Vec<usize>>()
}

fn scored(cities: &Vec<Coordinate>, v: Vec<usize>) -> Candidate {
    let c = cost(cities, v.clone());
    Candidate { vector: v, edges: vec![Edge(0, 0), Edge(0, 0)], cost: c }
}

fn with_cost(c: u64, tag: usize) -> Candidate {
    Candidate { vector: vec![tag], edges: vec![Edge(tag, tag), Edge(tag, tag)], cost: c }
}

#[test]
fn unit_square_reaches_perimeter_for_any_seed() {
    for seed in 0..10u64 {
        let mut rng = StdRng::seed_from_u64(seed);
        let best = search(&unit_square(), 1, 10, 50, &mut rng).unwrap();
        assert_eq!(best.cost, 4);
        assert!(is_perm(&best.vector, 4));
    }
}

#[test]
fn same_seed_gives_same_best() {
    let cities = small_map();
    let mut r1 = StdRng::seed_from_u64(7);
    let mut r2 = StdRng::seed_from_u64(7);
    let a = search(&cities, 5, 8, 30, &mut r1).unwrap();
    let b = search(&cities, 5, 8, 30, &mut r2).unwrap();
    assert_eq!(a.vector, b.vector);
    assert_eq!(a.cost, b.cost);
    assert_eq!(a.edges, b.edges);
}

#[test]
fn search_result_is_scored_permutation() {
    let cities = small_map();
    let mut rng = StdRng::seed_from_u64(11);
    let best = search(&cities, 15, 20, 100, &mut rng).unwrap();
    assert!(is_perm(&best.vector, cities.len()));
    assert_eq!(best.cost, cost(&cities, best.vector.clone()));
}

#[test]
fn search_rejects_bad_input() {
    let mut rng = StdRng::seed_from_u64(0);
    let three = vec![Coordinate(0, 0), Coordinate(1, 0), Coordinate(0, 1)];
    assert_eq!(search(&three, 1, 10, 50, &mut rng).unwrap_err(), SearchError::InvalidInput);
    assert_eq!(search(&unit_square(), 1, 0, 50, &mut rng).unwrap_err(), SearchError::InvalidInput);
    assert_eq!(search(&unit_square(), 0, 10, 50, &mut rng).unwrap_err(), SearchError::InvalidInput);
}

#[test]
fn search_with_no_rounds_returns_scored_first_tour() {
    let cities = small_map();
    let mut r1 = StdRng::seed_from_u64(13);
    let mut r2 = StdRng::seed_from_u64(13);
    let best = search(&cities, 3, 5, 0, &mut r1).unwrap();
    let first = random_permutation(&cities, &mut r2);
    assert_eq!(best.vector, first);
    assert_eq!(best.cost, cost(&cities, first.clone()));
    assert_eq!(best.edges, vec![Edge(0, 0), Edge(0, 0)]);
}

#[test]
fn zero_iterations_return_initial_candidate() {
    let cities = small_map();
    let mut rng = StdRng::seed_from_u64(5);
    let init = scored(&cities, (0..cities.len()).collect());
    let r = run_search(&cities, init.clone(), 3, 4, 0, &mut rng);
    assert_eq!(r.vector, init.vector);
    assert_eq!(r.cost, init.cost);
    assert_eq!(r.edges, init.edges);
}

#[test]
fn run_search_never_worsens_initial_cost() {
    let cities = small_map();
    let mut rng = StdRng::seed_from_u64(9);
    let init = scored(&cities, (0..cities.len()).collect());
    let r = run_search(&cities, init.clone(), 3, 6, 40, &mut rng);
    assert!(r.cost <= init.cost);
    assert_eq!(r.cost, cost(&cities, r.vector.clone()));
}

#[test]
fn random_permutation_is_permutation() {
    let cities = small_map();
    let mut rng = StdRng::seed_from_u64(2);
    for _ in 0..20 {
        assert!(is_perm(&random_permutation(&cities, &mut rng), cities.len()));
    }
    assert!(random_permutation(&Vec::new(), &mut rng).is_empty());
}

#[test]
fn candidate_is_scored_move_of_parent() {
    let cities = small_map();
    let mut rng = StdRng::seed_from_u64(4);
    let parent = scored(&cities, (0..cities.len()).collect());
    let (c, exhausted) = generate_candidate(parent.clone(), &Vec::new(), &cities, &mut rng);
    assert!(!exhausted);
    assert!(is_perm(&c.vector, cities.len()));
    assert_ne!(c.vector, parent.vector);
    assert_eq!(c.cost, cost(&cities, c.vector.clone()));
    assert_eq!(c.edges.len(), 2);
}

#[test]
fn candidate_avoids_forbidden_legs_when_it_can() {
    let cities = small_map();
    let parent = scored(&cities, (0..cities.len()).collect());
    let tabu = vec![Edge(0, 2)];
    for seed in 0..20u64 {
        let mut rng = StdRng::seed_from_u64(seed);
        let (c, exhausted) = generate_candidate(parent.clone(), &tabu, &cities, &mut rng);
        assert!(!exhausted);
        assert!(!c.vector.windows(2).any(|w| w[0] == 0 && w[1] == 2));
    }
}

#[test]
fn batch_has_requested_width() {
    let cities = small_map();
    let mut rng = StdRng::seed_from_u64(8);
    let current = scored(&cities, (0..cities.len()).collect());
    let (batch, exhausted) = generate_batch(&current, &Vec::new(), &cities, 7, &mut rng);
    assert_eq!(batch.len(), 7);
    assert_eq!(exhausted, 0);
    for c in batch.iter() {
        assert!(is_perm(&c.vector, cities.len()));
        assert_eq!(c.cost, cost(&cities, c.vector.clone()));
    }
}

#[test]
fn select_best_takes_first_cheapest() {
    let batch = vec![with_cost(9, 0), with_cost(3, 1), with_cost(5, 2), with_cost(3, 3)];
    assert_eq!(select_best(&batch), 1);
    assert_eq!(select_best(&vec![with_cost(2, 0)]), 0);
}

#[test]
fn update_takes_strictly_cheaper_candidates() {
    let mut current = with_cost(10, 0);
    let mut best = with_cost(8, 1);
    let mut tabu = Vec::new();
    update_current_and_best(&mut current, &mut best, with_cost(9, 2), &mut tabu, 5);
    assert_eq!(current.cost, 9);
    assert_eq!(current.vector, vec![2]);
    assert_eq!(best.cost, 8);
    assert_eq!(tabu, vec![Edge(2, 2), Edge(2, 2)]);

    update_current_and_best(&mut current, &mut best, with_cost(9, 3), &mut tabu, 5);
    assert_eq!(current.vector, vec![2]);
    assert_eq!(tabu.len(), 2);

    update_current_and_best(&mut current, &mut best, with_cost(4, 4), &mut tabu, 3);
    assert_eq!(current.cost, 4);
    assert_eq!(best.cost, 4);
    assert_eq!(best.vector, vec![4]);
    assert_eq!(tabu, vec![Edge(2, 2), Edge(4, 4), Edge(4, 4)]);
}

#[test]
fn best_cost_never_rises_over_updates() {
    let mut current = with_cost(50, 0);
    let mut best = current.clone();
    let mut tabu = Vec::new();
    let mut last = best.cost;
    for (i, c) in [40u64, 45, 30, 60, 30, 10, 20].iter().enumerate() {
        update_current_and_best(&mut current, &mut best, with_cost(*c, i), &mut tabu, 2);
        assert!(best.cost <= last);
        last = best.cost;
    }
    assert_eq!(best.cost, 10);
}

#[test]
fn apply_batch_offers_first_cheapest() {
    let mut current = with_cost(10, 0);
    let mut best = with_cost(10, 0);
    let mut tabu = Vec::new();
    let batch = vec![with_cost(12, 1), with_cost(7, 2), with_cost(7, 3)];
    let k = apply_batch(&mut current, &mut best, &batch, &mut tabu, 4);
    assert_eq!(k, 1);
    assert_eq!(current.vector, vec![2]);
    assert_eq!(best.vector, vec![2]);
    assert_eq!(best.cost, 7);
    assert_eq!(tabu, vec![Edge(2, 2), Edge(2, 2)]);

    let k = apply_batch(&mut current, &mut best, &vec![with_cost(8, 4)], &mut tabu, 4);
    assert_eq!(k, 0);
    assert_eq!(current.vector, vec![2]);
    assert_eq!(best.cost, 7);
}

fn every_leg(n: usize) -> Vec<Edge> {
    let mut all = Vec::new();
    for a in 0..n {
        for b in 0..n {
            all.push(Edge(a, b));
        }
    }
    all
}

#[test]
fn candidate_reports_exhausted_retries() {
    let cities = small_map();
    let mut rng = StdRng::seed_from_u64(6);
    let parent = scored(&cities, (0..cities.len()).collect());
    let (c, exhausted) = generate_candidate(parent, &every_leg(cities.len()), &cities, &mut rng);
    assert!(exhausted);
    assert!(is_perm(&c.vector, cities.len()));
}

#[test]
fn batch_counts_exhausted_candidates() {
    let cities = small_map();
    let mut rng = StdRng::seed_from_u64(10);
    let current = scored(&cities, (0..cities.len()).collect());
    let (batch, exhausted) = generate_batch(&current, &every_leg(cities.len()), &cities, 5, &mut rng);
    assert_eq!(batch.len(), 5);
    assert_eq!(exhausted, 5);
}
