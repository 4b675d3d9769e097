//! Tours as permutations of city indices, and their cyclic cost.

use vstd::prelude::*;
use crate::error::SearchError;
use crate::geometry::{distance, euclidean_2d, lemma_distance_symmetric, Cities, Coordinate};

verus! {

/// A tour: the order in which the cities are visited. The last city
/// connects back to the first.
pub type Permutation = Vec<usize>;

/// The largest number of cities for which a tour's cost is sure to fit in
/// a `u64`.
pub const MAX_CITIES: usize = 0x2000_0000;

/// `p` lists each of the indices `0..n` exactly once.
pub open spec fn is_permutation(p: Seq<usize>, n: int) -> bool {
    &&& p.len() == n
    &&& forall|i: int| 0 <= i < n ==> #[trigger] p[i] < n
    &&& forall|i: int, j: int| 0 <= i < j < n ==> #[trigger] p[i] != #[trigger] p[j]
}

/// The position that follows `i` on a cycle of length `n`.
pub open spec fn next_pos(i: int, n: int) -> int {
    if i + 1 < n {
        i + 1
    } else {
        0
    }
}

/// The cost of the leg that leaves position `i` of tour `p`.
pub open spec fn leg_cost(c: Seq<Coordinate>, p: Seq<usize>, i: int) -> int {
    distance(c[p[i] as int], c[p[next_pos(i, p.len() as int)] as int])
}

/// The cost of the legs that leave positions `0..k` of tour `p`.
pub open spec fn cost_prefix(c: Seq<Coordinate>, p: Seq<usize>, k: int) -> int
    decreases k,
{
    if k <= 0 {
        0
    } else {
        cost_prefix(c, p, k - 1) + leg_cost(c, p, k - 1)
    }
}

/// The total cost of the closed tour `p` over the cities `c`.
pub open spec fn tour_cost(c: Seq<Coordinate>, p: Seq<usize>) -> int {
    cost_prefix(c, p, p.len() as int)
}

/// The tour `p` started from its position `k` instead of position 0.
pub open spec fn rotated(p: Seq<usize>, k: int) -> Seq<usize> {
    p.subrange(k, p.len() as int) + p.subrange(0, k)
}

/// The tour `p` travelled in the opposite direction.
pub open spec fn reversed(p: Seq<usize>) -> Seq<usize> {
    Seq::new(p.len(), |i: int| p[p.len() - 1 - i])
}

proof fn lemma_rotate_one_prefix(c: Seq<Coordinate>, q: Seq<usize>, k: int)
    requires
        q.len() >= 1,
        0 <= k <= q.len() - 1,
    ensures
        cost_prefix(c, rotated(q, 1), k) == cost_prefix(c, q, k + 1) - leg_cost(c, q, 0),
    decreases k,
{
    let r = rotated(q, 1);
    assert(r.len() == q.len());
    if k == 0 {
        assert(cost_prefix(c, q, 1) == cost_prefix(c, q, 0) + leg_cost(c, q, 0));
    } else {
        lemma_rotate_one_prefix(c, q, k - 1);
        let n = q.len() as int;
        assert(r[k - 1] == q[k]);
        if k < n - 1 {
            assert(r[k] == q[k + 1]);
        } else {
            assert(r[k] == q[0]);
        }
        assert(leg_cost(c, r, k - 1) == leg_cost(c, q, k));
        assert(cost_prefix(c, q, k + 1) == cost_prefix(c, q, k) + leg_cost(c, q, k));
    }
}

proof fn lemma_rotate_one(c: Seq<Coordinate>, q: Seq<usize>)
    requires
        q.len() >= 1,
    ensures
        tour_cost(c, rotated(q, 1)) == tour_cost(c, q),
{
    let n = q.len() as int;
    let r = rotated(q, 1);
    lemma_rotate_one_prefix(c, q, n - 1);
    assert(r[n - 1] == q[0]);
    if n > 1 {
        assert(r[0] == q[1]);
    } else {
        assert(r[0] == q[0]);
    }
    assert(leg_cost(c, r, n - 1) == leg_cost(c, q, 0));
}

/// Starting a tour from another city does not change its cost.
pub proof fn lemma_cost_rotation(c: Seq<Coordinate>, p: Seq<usize>, k: int)
    requires
        is_permutation(p, c.len() as int),
        0 <= k <= p.len(),
    ensures
        tour_cost(c, rotated(p, k)) == tour_cost(c, p),
    decreases k,
{
    if k == 0 {
        assert(rotated(p, 0) =~= p);
    } else {
        lemma_cost_rotation(c, p, k - 1);
        let q = rotated(p, k - 1);
        assert(rotated(q, 1) =~= rotated(p, k));
        lemma_rotate_one(c, q);
    }
}

proof fn lemma_reverse_prefix(c: Seq<Coordinate>, p: Seq<usize>, k: int)
    requires
        p.len() >= 1,
        0 <= k <= p.len() - 1,
    ensures
        cost_prefix(c, reversed(p), k) == cost_prefix(c, p, p.len() - 1) - cost_prefix(
            c,
            p,
            p.len() - 1 - k,
        ),
    decreases k,
{
    if k > 0 {
        lemma_reverse_prefix(c, p, k - 1);
        let n = p.len() as int;
        let r = reversed(p);
        let j = n - 1 - k;
        assert(r[k - 1] == p[j + 1]);
        assert(r[k] == p[j]);
        lemma_distance_symmetric(c[p[j] as int], c[p[j + 1] as int]);
        assert(leg_cost(c, r, k - 1) == leg_cost(c, p, j));
    }
}

/// Travelling a tour in the opposite direction does not change its cost.
pub proof fn lemma_cost_reversal(c: Seq<Coordinate>, p: Seq<usize>)
    requires
        is_permutation(p, c.len() as int),
    ensures
        tour_cost(c, reversed(p)) == tour_cost(c, p),
{
    let n = p.len() as int;
    if n >= 1 {
        let r = reversed(p);
        lemma_reverse_prefix(c, p, n - 1);
        assert(r[n - 1] == p[0]);
        assert(r[0] == p[n - 1]);
        lemma_distance_symmetric(c[p[0] as int], c[p[n - 1] as int]);
        assert(leg_cost(c, r, n - 1) == leg_cost(c, p, n - 1));
    }
}

/// Total cost of the closed tour `permutation` over `cities`.
pub fn cost(cities: &Cities, permutation: Permutation) -> (r: u64)
    requires
        is_permutation(permutation@, cities@.len() as int),
        cities@.len() <= MAX_CITIES,
    ensures
        r == tour_cost(cities@, permutation@),
{
    let n = permutation.len();
    let mut total: u64 = 0;
    let mut i: usize = 0;
    while i < n
        invariant
            n == permutation@.len(),
            is_permutation(permutation@, cities@.len() as int),
            n <= MAX_CITIES,
            i <= n,
            total == cost_prefix(cities@, permutation@, i as int),
            total <= i * 0x4_0000_0000,
        decreases n - i,
    {
        let c1 = permutation[i];
        let c2 = if i + 1 < n {
            permutation[i + 1]
        } else {
            permutation[0]
        };
        let d = euclidean_2d(cities[c1], cities[c2]);
        assert(total + d <= (i + 1) * 0x4_0000_0000 <= 0x8000_0000_0000_0000) by (nonlinear_arith)
            requires
                total <= i * 0x4_0000_0000,
                d <= 0x4_0000_0000,
                i < n <= 0x2000_0000,
        ;
        total = total + d;
        i = i + 1;
    }
    total
}

/// Whether `tour` lists each of the indices `0..n` exactly once.
pub fn is_valid_tour(tour: &Permutation, n: usize) -> (r: bool)
    ensures
        r == is_permutation(tour@, n as int),
{
    if tour.len() != n {
        return false;
    }
    let mut seen: Vec<bool> = vec![false; n];
    let mut i: usize = 0;
    while i < n
        invariant
            tour@.len() == n,
            seen@.len() == n,
            i <= n,
            forall|j: int| 0 <= j < i ==> #[trigger] tour@[j] < n,
            forall|j: int, k: int| 0 <= j < k < i ==> #[trigger] tour@[j] != #[trigger] tour@[k],
            forall|v: int| 0 <= v < n ==> (#[trigger] seen@[v] <==> exists|j: int| 0 <= j < i && tour@[j] == v),
        decreases n - i,
    {
        let x = tour[i];
        if x >= n {
            return false;
        }
        if seen[x] {
            proof {
                let j = choose|j: int| 0 <= j < i && tour@[j] == x;
                assert(tour@[j] == tour@[i as int]);
            }
            return false;
        }
        seen.set(x, true);
        i = i + 1;
        proof {
            assert forall|v: int| 0 <= v < n implies (#[trigger] seen@[v] <==> exists|j: int|
                0 <= j < i && tour@[j] == v) by {
                if v == x {
                    assert(tour@[i - 1] == v);
                } else if seen@[v] {
                    let j = choose|j: int| 0 <= j < i - 1 && tour@[j] == v;
                    assert(0 <= j < i && tour@[j] == v);
                }
            }
        }
    }
    true
}

/// The cost of `tour` over `cities`, or `InvalidTour` when `tour` is not a
/// permutation of the city indices.
pub fn checked_cost(cities: &Cities, tour: Permutation) -> (r: Result<u64, SearchError>)
    requires
        cities@.len() <= MAX_CITIES,
    ensures
        is_permutation(tour@, cities@.len() as int) ==> r == Ok::<u64, SearchError>(
            tour_cost(cities@, tour@) as u64,
        ),
        !is_permutation(tour@, cities@.len() as int) ==> r == Err::<u64, SearchError>(
            SearchError::InvalidTour,
        ),
{
    if is_valid_tour(&tour, cities.len()) {
        Ok(cost(cities, tour))
    } else {
        Err(SearchError::InvalidTour)
    }
}

} // verus!
