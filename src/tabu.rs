//! The tabu list: legs that a new tour may not hold.

use vstd::prelude::*;
use crate::neighborhood::{Edge, EdgePair};
use crate::tour::{next_pos, Permutation};

verus! {

/// Legs that are currently forbidden, oldest first.
pub type TabuList = Vec<Edge>;

/// The leg of tour `p` that leaves position `i`.
pub open spec fn leg_at(p: Seq<usize>, i: int) -> Edge {
    Edge(p[i], p[next_pos(i, p.len() as int)])
}

/// A tour's leg matches a forbidden leg when both run between the same
/// cities in the same direction.
pub open spec fn leg_matches(leg: Edge, forbidden: Edge) -> bool {
    leg.0 == forbidden.0 && leg.1 == forbidden.1
}

/// Some leg of tour `p` matches some leg of `tabu`.
pub open spec fn tour_is_tabu(p: Seq<usize>, tabu: Seq<Edge>) -> bool {
    exists|i: int, k: int|
        0 <= i < p.len() && 0 <= k < tabu.len() && leg_matches(#[trigger] leg_at(p, i), #[trigger] tabu[k])
}

/// No tour is forbidden by an empty tabu list.
pub proof fn lemma_empty_tabu_list(p: Seq<usize>, tabu: Seq<Edge>)
    requires
        tabu.len() == 0,
    ensures
        !tour_is_tabu(p, tabu),
{
}

/// Whether `leg` matches `forbidden`: same cities, same direction.
pub fn edge_matches(leg: Edge, forbidden: Edge) -> (r: bool)
    ensures
        r == leg_matches(leg, forbidden),
{
    leg.0 == forbidden.0 && leg.1 == forbidden.1
}

/// Whether some leg of the closed tour `permutation` is in `tabu_list`.
pub fn is_tabu(permutation: &Permutation, tabu_list: &TabuList) -> (r: bool)
    ensures
        r == tour_is_tabu(permutation@, tabu_list@),
{
    let n = permutation.len();
    let mut i: usize = 0;
    while i < n
        invariant
            n == permutation@.len(),
            i <= n,
            forall|a: int, k: int|
                0 <= a < i && 0 <= k < tabu_list@.len() ==> !leg_matches(
                    #[trigger] leg_at(permutation@, a),
                    #[trigger] tabu_list@[k],
                ),
        decreases n - i,
    {
        let c1 = permutation[i];
        let c2 = if i + 1 < n {
            permutation[i + 1]
        } else {
            permutation[0]
        };
        let leg = Edge(c1, c2);
        assert(leg == leg_at(permutation@, i as int));
        let mut k: usize = 0;
        while k < tabu_list.len()
            invariant
                n == permutation@.len(),
                i < n,
                forall|a: int, k: int|
                    0 <= a < i && 0 <= k < tabu_list@.len() ==> !leg_matches(
                        #[trigger] leg_at(permutation@, a),
                        #[trigger] tabu_list@[k],
                    ),
                leg == leg_at(permutation@, i as int),
                k <= tabu_list@.len(),
                forall|j: int| 0 <= j < k ==> !#[trigger] leg_matches(leg, tabu_list@[j]),
            decreases tabu_list@.len() - k,
        {
            if edge_matches(leg, tabu_list[k]) {
                assert(leg_matches(leg_at(permutation@, i as int), tabu_list@[k as int]));
                return true;
            }
            k = k + 1;
        }
        i = i + 1;
    }
    false
}

/// The newest `size` entries of `list`, or all of them when there are fewer.
pub open spec fn newest(list: Seq<Edge>, size: int) -> Seq<Edge> {
    if list.len() > size {
        list.subrange(list.len() - size, list.len() as int)
    } else {
        list
    }
}

/// Forbids the legs `edges`, then drops the oldest entries until at most
/// `tabu_size` remain.
pub fn record_edges(tabu_list: &mut TabuList, edges: &EdgePair, tabu_size: usize)
    ensures
        final(tabu_list)@ == newest(old(tabu_list)@ + edges@, tabu_size as int),
{
    let ghost all = old(tabu_list)@ + edges@;
    let mut i: usize = 0;
    while i < edges.len()
        invariant
            i <= edges@.len(),
            tabu_list@ == old(tabu_list)@ + edges@.subrange(0, i as int),
        decreases edges@.len() - i,
    {
        tabu_list.push(edges[i]);
        i = i + 1;
        assert(edges@.subrange(0, i as int) =~= edges@.subrange(0, i - 1) .push(edges@[i - 1]));
    }
    assert(edges@.subrange(0, edges@.len() as int) =~= edges@);
    if tabu_list.len() > tabu_size {
        let drop = tabu_list.len() - tabu_size;
        let mut kept: TabuList = Vec::with_capacity(tabu_size);
        let mut j: usize = drop;
        while j < tabu_list.len()
            invariant
                tabu_list@ == all,
                drop <= j <= all.len(),
                kept@ == all.subrange(drop as int, j as int),
            decreases all.len() - j,
        {
            kept.push(tabu_list[j]);
            j = j + 1;
            assert(all.subrange(drop as int, j as int) =~= all.subrange(drop as int, j - 1).push(all[j - 1]));
        }
        *tabu_list = kept;
    }
}

} // verus!
