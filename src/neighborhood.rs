//! Neighbouring tours: a 2-opt move reverses one window of a tour.

use vstd::prelude::*;
use rand::rngs::StdRng;
use crate::error::SearchError;
use crate::random::draw_index;
use crate::tour::{is_permutation, Permutation};

verus! {

/// One leg of a tour, from the first city to the second.
#[derive(Copy, Clone, Debug, PartialEq, Eq, Structural)]
pub struct Edge(pub usize, pub usize);

/// The two legs that a move brings into a tour.
pub type EdgePair = Vec<Edge>;

/// `p` with the positions `c1..c2` in reverse order.
pub open spec fn reversed_window(p: Seq<usize>, c1: int, c2: int) -> Seq<usize> {
    Seq::new(p.len(), |i: int| if c1 <= i < c2 { p[c1 + c2 - 1 - i] } else { p[i] })
}

/// The legs of the new tour `q` that enter and leave the reversed window
/// `c1..c2`; the leg entering position 0 comes from the last position.
pub open spec fn changed_edges(q: Seq<usize>, c1: int, c2: int) -> Seq<Edge> {
    let before = if c1 == 0 { q.len() - 1 } else { c1 - 1 };
    seq![Edge(q[before], q[c1]), Edge(q[c2 - 1], q[c2])]
}

/// The cuts that a random move may choose on a tour of `n` cities: both in
/// `1..n`, in increasing order and not adjacent.
pub open spec fn is_move_cut(n: int, c1: int, c2: int) -> bool {
    1 <= c1 && c1 + 2 <= c2 && c2 < n
}

/// `q` and `edges` are what the move with cuts `c1`, `c2` makes of `parent`.
pub open spec fn is_move_of(parent: Seq<usize>, c1: int, c2: int, q: Seq<usize>, edges: Seq<Edge>) -> bool {
    &&& is_move_cut(parent.len() as int, c1, c2)
    &&& q == reversed_window(parent, c1, c2)
    &&& edges == changed_edges(q, c1, c2)
}

/// The number of positions in `1..n` that are neither `c1` nor next to it.
pub open spec fn cut_choice_count(n: int, c1: int) -> int {
    (if c1 >= 2 { c1 - 2 } else { 0 }) + (if c1 + 2 <= n { n - c1 - 2 } else { 0 })
}

/// The `k`-th position of `1..n`, in increasing order, that is neither `c1`
/// nor next to it.
pub open spec fn cut_choice(n: int, c1: int, k: int) -> int {
    let low = if c1 >= 2 { c1 - 2 } else { 0 };
    if k < low {
        1 + k
    } else {
        c1 + 2 + (k - low)
    }
}

/// A random move turns a permutation into a permutation of the same
/// indices, equal to the parent outside the reversed window.
pub proof fn lemma_move_keeps_permutation(
    p: Seq<usize>,
    n: int,
    c1: int,
    c2: int,
    q: Seq<usize>,
    edges: Seq<Edge>,
)
    requires
        is_permutation(p, n),
        is_move_of(p, c1, c2, q, edges),
    ensures
        is_permutation(q, n),
        forall|i: int| 0 <= i < n && !(c1 <= i < c2) ==> #[trigger] q[i] == p[i],
{
    assert forall|i: int| 0 <= i < n implies #[trigger] q[i] < n by {
        if c1 <= i < c2 {
            assert(p[c1 + c2 - 1 - i] < n);
        } else {
            assert(p[i] < n);
        }
    }
    assert forall|i: int, j: int| 0 <= i < j < n implies #[trigger] q[i] != #[trigger] q[j] by {
        let si = if c1 <= i < c2 { c1 + c2 - 1 - i } else { i };
        let sj = if c1 <= j < c2 { c1 + c2 - 1 - j } else { j };
        assert(q[i] == p[si] && q[j] == p[sj]);
        assert(si != sj);
        if si < sj {
            assert(p[si] != p[sj]);
        } else {
            assert(p[sj] != p[si]);
        }
    }
}

/// The number of positions in `1..len` that a second cut may take when the
/// first is `c1`.
pub fn cut_choices(len: usize, c1: usize) -> (r: usize)
    requires
        1 <= c1 < len,
    ensures
        r == cut_choice_count(len as int, c1 as int),
        len >= 5 || c1 != 2 ==> (len >= 4 ==> r >= 1),
{
    let low: usize = if c1 >= 2 { c1 - 2 } else { 0 };
    let high: usize = if len - c1 >= 2 { len - c1 - 2 } else { 0 };
    low + high
}

/// The second cut for the first cut `c1`, chosen by `k` among the positions
/// of `1..len` that are neither `c1` nor next to it.
pub fn cut_from_draw(len: usize, c1: usize, k: usize) -> (c2: usize)
    requires
        1 <= c1 < len,
        k < cut_choice_count(len as int, c1 as int),
    ensures
        c2 as int == cut_choice(len as int, c1 as int, k as int),
        1 <= c2 < len,
        c2 != c1,
        c2 != c1 + 1,
        c2 + 1 != c1,
{
    let low: usize = if c1 >= 2 { c1 - 2 } else { 0 };
    if k < low {
        1 + k
    } else {
        c1 + 2 + (k - low)
    }
}

/// The tour `parent` with positions `c1..c2` reversed, and the two legs of
/// the new tour that enter and leave the reversed window.
pub fn reverse_segment(parent: &Permutation, c1: usize, c2: usize) -> (r: (Permutation, EdgePair))
    requires
        c1 < c2 < parent@.len(),
    ensures
        r.0@ == reversed_window(parent@, c1 as int, c2 as int),
        r.1@ == changed_edges(r.0@, c1 as int, c2 as int),
{
    let len = parent.len();
    let mut permutation: Permutation = Vec::with_capacity(len);
    let mut i: usize = 0;
    while i < len
        invariant
            len == parent@.len(),
            c1 < c2 < len,
            i <= len,
            permutation@.len() == i,
            forall|j: int| 0 <= j < i ==> #[trigger] permutation@[j] == reversed_window(parent@, c1 as int, c2 as int)[j],
        decreases len - i,
    {
        if c1 <= i && i < c2 {
            permutation.push(parent[c2 - 1 - (i - c1)]);
        } else {
            permutation.push(parent[i]);
        }
        i = i + 1;
    }
    assert(permutation@ =~= reversed_window(parent@, c1 as int, c2 as int));
    let before: usize = if c1 == 0 { len - 1 } else { c1 - 1 };
    let edges: EdgePair = vec![
        Edge(permutation[before], permutation[c1]),
        Edge(permutation[c2 - 1], permutation[c2]),
    ];
    assert(edges@ =~= changed_edges(permutation@, c1 as int, c2 as int));
    (permutation, edges)
}

/// A random 2-opt move on `parent`: two non-adjacent cuts are drawn from
/// `1..len`, the window between them is reversed, and the two legs that the
/// move brings in are reported. Fails on fewer than four cities. On four
/// cities only the cuts 1 and 3 lie apart, so a first cut of 2 is taken as 1.
pub fn stochastic_edge_generation(parent: Permutation, rng: &mut StdRng) -> (r: Result<(Permutation, EdgePair), SearchError>)
    ensures
        parent@.len() < 4 <==> r is Err,
        r is Err ==> r == Err::<(Permutation, EdgePair), SearchError>(SearchError::InvalidInput),
        r is Ok ==> exists|c1: int, c2: int|
            #[trigger] is_move_of(parent@, c1, c2, r->Ok_0.0@, r->Ok_0.1@),
{
    let len = parent.len();
    if len < 4 {
        return Err(SearchError::InvalidInput);
    }
    let mut c1 = draw_index(rng, 1, len);
    if len == 4 && c1 == 2 {
        c1 = 1;
    }
    let count = cut_choices(len, c1);
    let k = draw_index(rng, 0, count);
    let mut c2 = cut_from_draw(len, c1, k);
    if c2 < c1 {
        let t = c1;
        c1 = c2;
        c2 = t;
    }
    let (q, edges) = reverse_segment(&parent, c1, c2);
    let ghost (gq, ge) = (q@, edges@);
    assert(is_move_of(parent@, c1 as int, c2 as int, gq, ge));
    let r: Result<(Permutation, EdgePair), SearchError> = Ok((q, edges));
    assert(r->Ok_0.0@ == gq);
    assert(r->Ok_0.1@ == ge);
    r
}

} // verus!
