//! The search: scored candidates, the candidate factory and the loop that
//! keeps the current and the best candidate.

use vstd::prelude::*;
use rand::rngs::StdRng;
use crate::error::SearchError;
use crate::geometry::{Cities, Coordinate};
use crate::neighborhood::{
    is_move_of, lemma_move_keeps_permutation, stochastic_edge_generation, Edge, EdgePair,
};
use crate::random::draw_index;
use crate::tabu::{is_tabu, newest, record_edges, tour_is_tabu, TabuList};
use crate::tour::{cost, is_permutation, tour_cost, Permutation, MAX_CITIES};

verus! {

/// A tour with its cost and the two legs that the move which made it
/// brought in.
#[derive(Clone, Debug)]
pub struct Candidate {
    pub vector: Permutation,
    pub edges: EdgePair,
    pub cost: u64,
}

impl Candidate {
    /// The tour visits each city once and `cost` is its cost.
    pub open spec fn is_scored(&self, c: Seq<Coordinate>) -> bool {
        &&& is_permutation(self.vector@, c.len() as int)
        &&& self.cost == tour_cost(c, self.vector@)
    }

    /// The two candidates hold the same tour, legs and cost.
    pub open spec fn same_as(&self, o: &Candidate) -> bool {
        &&& self.vector@ == o.vector@
        &&& self.edges@ == o.edges@
        &&& self.cost == o.cost
    }

    /// A copy of this candidate that owns its own tour.
    pub fn duplicate(&self) -> (r: Candidate)
        ensures
            r.same_as(self),
    {
        let vector = self.vector.clone();
        let edges = self.edges.clone();
        assert(vector@ =~= self.vector@);
        assert(edges@ =~= self.edges@);
        Candidate { vector, edges, cost: self.cost }
    }
}

proof fn lemma_swap_keeps_permutation(p: Seq<usize>, n: int, a: int, b: int)
    requires
        is_permutation(p, n),
        0 <= a < n,
        0 <= b < n,
    ensures
        is_permutation(p.update(a, p[b]).update(b, p[a]), n),
{
    let q = p.update(a, p[b]).update(b, p[a]);
    assert forall|i: int, j: int| 0 <= i < j < n implies #[trigger] q[i] != #[trigger] q[j] by {
        let si = if i == b { a } else if i == a { b } else { i };
        let sj = if j == b { a } else if j == a { b } else { j };
        assert(q[i] == p[si] && q[j] == p[sj]);
        if si < sj {
            assert(p[si] != p[sj]);
        } else {
            assert(p[sj] != p[si]);
        }
    }
}

/// A random tour of all the cities, by a Fisher-Yates shuffle of
/// `0..cities.len()`.
pub fn random_permutation(cities: &Cities, rng: &mut StdRng) -> (r: Permutation)
    ensures
        is_permutation(r@, cities@.len() as int),
{
    let len = cities.len();
    let mut permutation: Permutation = Vec::with_capacity(len);
    let mut i: usize = 0;
    while i < len
        invariant
            i <= len,
            permutation@.len() == i,
            forall|j: int| 0 <= j < i ==> #[trigger] permutation@[j] == j,
        decreases len - i,
    {
        permutation.push(i);
        i = i + 1;
    }
    let mut i: usize = 0;
    while i < len
        invariant
            len == cities@.len(),
            i <= len,
            is_permutation(permutation@, len as int),
        decreases len - i,
    {
        let r = draw_index(rng, i, len);
        let a = permutation[i];
        let b = permutation[r];
        proof {
            lemma_swap_keeps_permutation(permutation@, len as int, i as int, r as int);
        }
        permutation.set(i, b);
        permutation.set(r, a);
        i = i + 1;
    }
    permutation
}

/// A new candidate made from `best` by one random move. While the new tour
/// holds a forbidden leg the move is drawn again, at most twice per city;
/// after that the last move is kept even though it is forbidden. The flag
/// returned beside the candidate tells whether the retries ran out so, that
/// is, whether the candidate's tour holds a forbidden leg.
pub fn generate_candidate(best: Candidate, tabu_list: &TabuList, cities: &Cities, rng: &mut StdRng) -> (r: (Candidate, bool))
    requires
        best.is_scored(cities@),
        4 <= cities@.len() <= MAX_CITIES,
    ensures
        r.0.is_scored(cities@),
        exists|c1: int, c2: int| #[trigger] is_move_of(best.vector@, c1, c2, r.0.vector@, r.0.edges@),
        r.1 == tour_is_tabu(r.0.vector@, tabu_list@),
{
    let n = cities.len();
    let mut tries: usize = 0;
    let limit: usize = 2 * n;
    loop
        invariant
            best.is_scored(cities@),
            4 <= n == cities@.len() <= MAX_CITIES,
            tries < limit,
        decreases limit - tries,
    {
        let parent = best.vector.clone();
        assert(parent@ =~= best.vector@);
        let moved = stochastic_edge_generation(parent, rng);
        let (perm, edges) = match moved {
            Ok(m) => m,
            Err(_) => {
                assert(false);
                (Vec::new(), Vec::new())
            },
        };
        tries = tries + 1;
        let forbidden = is_tabu(&perm, tabu_list);
        if tries >= limit || !forbidden {
            let ghost (c1, c2) = choose|c1: int, c2: int| #[trigger] is_move_of(best.vector@, c1, c2, perm@, edges@);
            proof {
                lemma_move_keeps_permutation(best.vector@, n as int, c1, c2, perm@, edges@);
            }
            let scored = perm.clone();
            assert(scored@ =~= perm@);
            let c = cost(cities, scored);
            let ghost (gp, ge) = (perm@, edges@);
            assert(is_move_of(best.vector@, c1, c2, gp, ge));
            let r = Candidate { vector: perm, edges, cost: c };
            assert(r.vector@ == gp && r.edges@ == ge);
            return (r, forbidden);
        }
    }
}

/// `r` is the position of the first candidate of lowest cost in `batch`.
pub open spec fn is_first_cheapest(batch: Seq<Candidate>, r: int) -> bool {
    &&& 0 <= r < batch.len()
    &&& forall|j: int| 0 <= j < batch.len() ==> batch[r].cost <= #[trigger] batch[j].cost
    &&& forall|j: int| 0 <= j < r ==> batch[r].cost < #[trigger] batch[j].cost
}

/// `batch` is a round of the search from the candidate `cur`: `size`
/// scored candidates, each made by one move from the tour of `cur`.
pub open spec fn is_round(c: Seq<Coordinate>, cur: Candidate, size: int, batch: Seq<Candidate>) -> bool {
    &&& batch.len() == size
    &&& forall|j: int|
        0 <= j < batch.len() ==> (#[trigger] batch[j]).is_scored(c) && exists|c1: int, c2: int|
            #[trigger] is_move_of(cur.vector@, c1, c2, batch[j].vector@, batch[j].edges@)
}

/// How many members of `batch` have a tour that holds a leg of `tabu`.
pub open spec fn forbidden_count(batch: Seq<Candidate>, tabu: Seq<Edge>) -> int
    decreases batch.len(),
{
    if batch.len() == 0 {
        0
    } else {
        forbidden_count(batch.drop_last(), tabu) + if tour_is_tabu(batch.last().vector@, tabu) {
            1int
        } else {
            0int
        }
    }
}

/// `candidate_size` candidates, each made by its own random move from the
/// tour of `current`, with the number of them for which the retries ran
/// out and a forbidden tour was kept.
pub fn generate_batch(
    current: &Candidate,
    tabu_list: &TabuList,
    cities: &Cities,
    candidate_size: usize,
    rng: &mut StdRng,
) -> (r: (Vec<Candidate>, usize))
    requires
        current.is_scored(cities@),
        4 <= cities@.len() <= MAX_CITIES,
    ensures
        is_round(cities@, *current, candidate_size as int, r.0@),
        r.1 == forbidden_count(r.0@, tabu_list@),
{
    let mut candidates: Vec<Candidate> = Vec::with_capacity(candidate_size);
    let mut exhausted: usize = 0;
    while candidates.len() < candidate_size
        invariant
            current.is_scored(cities@),
            4 <= cities@.len() <= MAX_CITIES,
            candidates@.len() <= candidate_size,
            exhausted <= candidates@.len(),
            exhausted == forbidden_count(candidates@, tabu_list@),
            forall|j: int|
                0 <= j < candidates@.len() ==> (#[trigger] candidates@[j]).is_scored(cities@)
                    && exists|c1: int, c2: int|
                    #[trigger] is_move_of(
                        current.vector@,
                        c1,
                        c2,
                        candidates@[j].vector@,
                        candidates@[j].edges@,
                    ),
        decreases candidate_size - candidates@.len(),
    {
        let parent = current.duplicate();
        let (candidate, forbidden) = generate_candidate(parent, tabu_list, cities, rng);
        let ghost before = candidates@;
        candidates.push(candidate);
        assert(candidates@.drop_last() =~= before);
        if forbidden {
            exhausted = exhausted + 1;
        }
    }
    (candidates, exhausted)
}

/// The position of the first candidate of lowest cost in a non-empty batch:
/// the one that a stable sort by cost puts first.
pub fn select_best(candidates: &Vec<Candidate>) -> (r: usize)
    requires
        candidates@.len() > 0,
    ensures
        is_first_cheapest(candidates@, r as int),
{
    let mut best: usize = 0;
    let mut i: usize = 1;
    while i < candidates.len()
        invariant
            1 <= i <= candidates@.len(),
            best < i,
            forall|j: int| 0 <= j < i ==> candidates@[best as int].cost <= #[trigger] candidates@[j].cost,
            forall|j: int| 0 <= j < best ==> candidates@[best as int].cost < #[trigger] candidates@[j].cost,
        decreases candidates@.len() - i,
    {
        if candidates[i].cost < candidates[best].cost {
            best = i;
        }
        i = i + 1;
    }
    best
}

/// The rule by which the best candidate `bc` of a batch changes the state:
/// it becomes the current candidate if it is cheaper than the current one,
/// and then also the best one if it is cheaper than the best one; its legs
/// become forbidden when it is taken.
pub open spec fn is_update(
    current: Candidate,
    best: Candidate,
    tabu: Seq<Edge>,
    bc: Candidate,
    tabu_size: int,
    new_current: Candidate,
    new_best: Candidate,
    new_tabu: Seq<Edge>,
) -> bool {
    if bc.cost < current.cost {
        &&& new_current.same_as(&bc)
        &&& new_tabu == newest(tabu + bc.edges@, tabu_size)
        &&& if bc.cost < best.cost {
            new_best.same_as(&bc)
        } else {
            new_best.same_as(&best)
        }
    } else {
        &&& new_current.same_as(&current)
        &&& new_best.same_as(&best)
        &&& new_tabu == tabu
    }
}

/// Takes the best candidate of a batch: it becomes the current candidate if
/// it is cheaper than the current one, and then also the best one if it is
/// cheaper than the best one; its legs become forbidden when it is taken.
pub fn update_current_and_best(
    current: &mut Candidate,
    best: &mut Candidate,
    best_candidate: Candidate,
    tabu_list: &mut TabuList,
    tabu_size: usize,
)
    ensures
        final(best).cost <= old(best).cost,
        is_update(
            *old(current),
            *old(best),
            old(tabu_list)@,
            best_candidate,
            tabu_size as int,
            *final(current),
            *final(best),
            final(tabu_list)@,
        ),
{
    if best_candidate.cost < current.cost {
        record_edges(tabu_list, &best_candidate.edges, tabu_size);
        if best_candidate.cost < best.cost {
            *best = best_candidate.duplicate();
        }
        *current = best_candidate;
    }
}

/// One round of the search on a batch that has been made: the first
/// cheapest member of the batch, whose position is returned, is offered to
/// `update_current_and_best`.
pub fn apply_batch(
    current: &mut Candidate,
    best: &mut Candidate,
    candidates: &Vec<Candidate>,
    tabu_list: &mut TabuList,
    tabu_size: usize,
) -> (k: usize)
    requires
        candidates@.len() > 0,
    ensures
        is_first_cheapest(candidates@, k as int),
        final(best).cost <= old(best).cost,
        is_update(
            *old(current),
            *old(best),
            old(tabu_list)@,
            candidates@[k as int],
            tabu_size as int,
            *final(current),
            *final(best),
            final(tabu_list)@,
        ),
{
    let k = select_best(candidates);
    let best_candidate = candidates[k].duplicate();
    update_current_and_best(current, best, best_candidate, tabu_list, tabu_size);
    k
}

/// The state `(cur, best, tabu)` of the search is reached from the state
/// `(cur0, best0, tabu0)` by the rounds of `log`, in order: each round is
/// `size` moves from the current candidate of its time, and its first
/// cheapest member is offered to the update rule.
pub open spec fn reaches(
    c: Seq<Coordinate>,
    cur0: Candidate,
    best0: Candidate,
    tabu0: Seq<Edge>,
    tabu_size: int,
    size: int,
    log: Seq<Seq<Candidate>>,
    cur: Candidate,
    best: Candidate,
    tabu: Seq<Edge>,
) -> bool
    decreases log.len(),
{
    if log.len() == 0 {
        &&& cur.same_as(&cur0)
        &&& best.same_as(&best0)
        &&& tabu == tabu0
    } else {
        exists|pc: Candidate, pb: Candidate, pt: Seq<Edge>, k: int|
            #[trigger] is_update(pc, pb, pt, log.last()[k], tabu_size, cur, best, tabu)
                && reaches(c, cur0, best0, tabu0, tabu_size, size, log.drop_last(), pc, pb, pt)
                && is_round(c, pc, size, log.last()) && is_first_cheapest(log.last(), k)
    }
}

/// `r` is the best candidate at the end of a run of the search through the
/// rounds of `log`, started from the state `(cur0, best0, tabu0)`.
pub open spec fn is_run(
    c: Seq<Coordinate>,
    cur0: Candidate,
    best0: Candidate,
    tabu0: Seq<Edge>,
    tabu_size: int,
    size: int,
    log: Seq<Seq<Candidate>>,
    r: Candidate,
) -> bool {
    exists|cur: Candidate, tabu: Seq<Edge>|
        #[trigger] reaches(c, cur0, best0, tabu0, tabu_size, size, log, cur, r, tabu)
}

/// Over a run of the search the best cost never rises: the best candidate
/// costs no more than the first best one, than the current one, and than
/// any candidate made in any round.
pub proof fn lemma_run_best_never_rises(
    c: Seq<Coordinate>,
    cur0: Candidate,
    best0: Candidate,
    tabu0: Seq<Edge>,
    tabu_size: int,
    size: int,
    log: Seq<Seq<Candidate>>,
    cur: Candidate,
    best: Candidate,
    tabu: Seq<Edge>,
)
    requires
        best0.cost <= cur0.cost,
        reaches(c, cur0, best0, tabu0, tabu_size, size, log, cur, best, tabu),
    ensures
        best.cost <= best0.cost,
        best.cost <= cur.cost,
        forall|i: int, j: int|
            0 <= i < log.len() && 0 <= j < log[i].len() ==> best.cost <= (#[trigger] log[i][j]).cost,
    decreases log.len(),
{
    if log.len() > 0 {
        let (pc, pb, pt, k) = choose|pc: Candidate, pb: Candidate, pt: Seq<Edge>, k: int|
            #[trigger] is_update(pc, pb, pt, log.last()[k], tabu_size, cur, best, tabu)
                && reaches(c, cur0, best0, tabu0, tabu_size, size, log.drop_last(), pc, pb, pt)
                && is_round(c, pc, size, log.last()) && is_first_cheapest(log.last(), k);
        lemma_run_best_never_rises(c, cur0, best0, tabu0, tabu_size, size, log.drop_last(), pc, pb, pt);
        let prev = log.drop_last();
        assert forall|i: int, j: int|
            0 <= i < log.len() && 0 <= j < log[i].len() implies best.cost <= (#[trigger] log[i][j]).cost by {
            if i < log.len() - 1 {
                assert(log[i] == prev[i]);
                assert(pb.cost <= prev[i][j].cost);
            } else {
                assert(log[i] == log.last());
                assert(log.last()[k].cost <= log.last()[j].cost);
            }
        }
    }
}

/// The search loop from the candidate `init`: `max_iter` times, a batch of
/// `candidate_size` moves from the current candidate is made, and its best
/// member is offered to `update_current_and_best`. Returns the best
/// candidate seen.
pub fn run_search(
    cities: &Cities,
    init: Candidate,
    tabu_size: usize,
    candidate_size: usize,
    max_iter: usize,
    rng: &mut StdRng,
) -> (r: Candidate)
    requires
        init.is_scored(cities@),
        4 <= cities@.len() <= MAX_CITIES,
        candidate_size >= 1,
    ensures
        r.is_scored(cities@),
        r.cost <= init.cost,
        max_iter == 0 ==> r.same_as(&init),
        exists|log: Seq<Seq<Candidate>>|
            log.len() == max_iter && #[trigger] is_run(
                cities@,
                init,
                init,
                Seq::empty(),
                tabu_size as int,
                candidate_size as int,
                log,
                r,
            ),
{
    let ghost start = init;
    let mut current = init.duplicate();
    let mut best = init;
    let mut tabu_list: TabuList = Vec::new();
    let ghost mut log: Seq<Seq<Candidate>> = Seq::empty();
    assert(tabu_list@ =~= Seq::<Edge>::empty());
    let mut iter: usize = 0;
    while iter < max_iter
        invariant
            current.is_scored(cities@),
            best.is_scored(cities@),
            4 <= cities@.len() <= MAX_CITIES,
            candidate_size >= 1,
            best.cost <= start.cost,
            iter <= max_iter,
            iter == 0 ==> best.same_as(&start),
            log.len() == iter,
            reaches(
                cities@,
                start,
                start,
                Seq::empty(),
                tabu_size as int,
                candidate_size as int,
                log,
                current,
                best,
                tabu_list@,
            ),
        decreases max_iter - iter,
    {
        let (candidates, _exhausted) = generate_batch(&current, &tabu_list, cities, candidate_size, rng);
        let ghost (pc, pb, pt) = (current, best, tabu_list@);
        let k = apply_batch(&mut current, &mut best, &candidates, &mut tabu_list, tabu_size);
        assert(candidates@[k as int].is_scored(cities@));
        proof {
            let prev = log;
            log = log.push(candidates@);
            assert(log.drop_last() =~= prev);
            assert(log.last() == candidates@);
            assert(is_update(pc, pb, pt, log.last()[k as int], tabu_size as int, current, best, tabu_list@));
        }
        iter = iter + 1;
    }
    assert(reaches(
        cities@,
        start,
        start,
        Seq::empty(),
        tabu_size as int,
        candidate_size as int,
        log,
        current,
        best,
        tabu_list@,
    ));
    assert(is_run(cities@, start, start, Seq::empty(), tabu_size as int, candidate_size as int, log, best));
    best
}

/// Tabu search over `cities`: a random first tour, then `max_iter` rounds
/// of `candidate_size` moves each, with at most `tabu_size` forbidden legs.
/// Returns the best candidate found; with no rounds that is the scored
/// first tour. Fails when there are fewer than four or more than
/// `MAX_CITIES` cities, or when the batch width or the tabu capacity is
/// zero.
pub fn search(
    cities: &Cities,
    tabu_size: usize,
    candidate_size: usize,
    max_iter: usize,
    rng: &mut StdRng,
) -> (r: Result<Candidate, SearchError>)
    ensures
        r is Err <==> (cities@.len() < 4 || cities@.len() > MAX_CITIES || tabu_size == 0
            || candidate_size == 0),
        r is Err ==> r == Err::<Candidate, SearchError>(SearchError::InvalidInput),
        r is Ok ==> r->Ok_0.is_scored(cities@),
        r is Ok ==> exists|init: Candidate, log: Seq<Seq<Candidate>>|
            init.is_scored(cities@) && init.edges@ == seq![Edge(0, 0), Edge(0, 0)] && log.len()
                == max_iter && #[trigger] is_run(
                cities@,
                init,
                init,
                Seq::empty(),
                tabu_size as int,
                candidate_size as int,
                log,
                r->Ok_0,
            ),
{
    if cities.len() < 4 || cities.len() > MAX_CITIES || tabu_size == 0 || candidate_size == 0 {
        return Err(SearchError::InvalidInput);
    }
    let perm = random_permutation(cities, rng);
    let scored = perm.clone();
    assert(scored@ =~= perm@);
    let c = cost(cities, scored);
    let init = Candidate { vector: perm, edges: vec![Edge(0, 0), Edge(0, 0)], cost: c };
    assert(init.edges@ =~= seq![Edge(0, 0), Edge(0, 0)]);
    let best = run_search(cities, init, tabu_size, candidate_size, max_iter, rng);
    let r: Result<Candidate, SearchError> = Ok(best);
    assert(r->Ok_0 == best);
    r
}

} // verus!
