//! The mathematical model: graphs as sequences of neighbor lists, vertex
//! sets as membership sequences, and the predicates that say what a maximal
//! independent set is.

use vstd::prelude::*;

verus! {

/// The adjacency view of a graph value: vertex `v`'s neighbor list is
/// `gview(g)[v]`.
pub open spec fn gview(g: Seq<Vec<usize>>) -> Seq<Seq<usize>> {
    Seq::new(g.len(), |v: int| g[v]@)
}

/// Membership of vertex `v` in a set given as a membership vector.
pub open spec fn sel(s: Seq<bool>, v: int) -> bool {
    0 <= v < s.len() && s[v]
}

/// Vertex `u`'s neighbor list has an entry naming `v`.
pub open spec fn edge(g: Seq<Seq<usize>>, u: int, v: int) -> bool {
    0 <= u < g.len() && exists|k: int| 0 <= k < g[u].len() && g[u][k] as int == v
}

/// Vertex `v` lists at least one member of `s` as a neighbor.
pub open spec fn has_nbr_in(g: Seq<Seq<usize>>, s: Seq<bool>, v: int) -> bool {
    exists|u: int| edge(g, v, u) && sel(s, u)
}

/// No member of `s` lists another member of `s` as a neighbor.
pub open spec fn independent(g: Seq<Seq<usize>>, s: Seq<bool>) -> bool {
    forall|u: int, v: int| sel(s, u) && sel(s, v) ==> !edge(g, u, v)
}

/// Every vertex outside `s` lists some member of `s` as a neighbor.
pub open spec fn maximal(g: Seq<Seq<usize>>, s: Seq<bool>) -> bool {
    forall|v: int| 0 <= v < g.len() && !sel(s, v) ==> has_nbr_in(g, s, v)
}

/// `s` is a maximal independent set of `g`.
pub open spec fn valid_mis(g: Seq<Seq<usize>>, s: Seq<bool>) -> bool {
    independent(g, s) && maximal(g, s)
}

/// A consistent graph: every in-range neighbor entry names a vertex other
/// than its owner, and that vertex's own list names the owner back.
/// Out-of-range entries are unconstrained; they stand for vertices without
/// a list of their own.
pub open spec fn wf(g: Seq<Seq<usize>>) -> bool {
    forall|u: int, v: int| #[trigger]
        edge(g, u, v) && 0 <= v < g.len() ==> v != u && edge(g, v, u)
}

/// How many entries of a membership vector are set.
pub open spec fn count_true(s: Seq<bool>) -> nat
    decreases s.len(),
{
    if s.len() == 0 {
        0
    } else {
        count_true(s.drop_last()) + (if s.last() {
            1nat
        } else {
            0nat
        })
    }
}

/// A pointwise-smaller membership vector has no more members.
pub proof fn lemma_count_le(a: Seq<bool>, b: Seq<bool>)
    requires
        a.len() == b.len(),
        forall|v: int| 0 <= v < a.len() && a[v] ==> b[v],
    ensures
        count_true(a) <= count_true(b),
    decreases a.len(),
{
    if a.len() > 0 {
        assert forall|v: int| 0 <= v < a.drop_last().len() && a.drop_last()[v] implies b.drop_last()[v] by {
            assert(a[v] ==> b[v]);
        }
        lemma_count_le(a.drop_last(), b.drop_last());
    }
}

/// A pointwise-smaller membership vector that loses at least one member has
/// strictly fewer members.
pub proof fn lemma_count_lt(a: Seq<bool>, b: Seq<bool>, x: int)
    requires
        a.len() == b.len(),
        forall|v: int| 0 <= v < a.len() && a[v] ==> b[v],
        0 <= x < b.len(),
        b[x],
        !a[x],
    ensures
        count_true(a) < count_true(b),
    decreases a.len(),
{
    assert forall|v: int| 0 <= v < a.drop_last().len() && a.drop_last()[v] implies b.drop_last()[v] by {
        assert(a[v] ==> b[v]);
    }
    if x == a.len() - 1 {
        lemma_count_le(a.drop_last(), b.drop_last());
    } else {
        lemma_count_lt(a.drop_last(), b.drop_last(), x);
    }
}

/// A vertex with an empty neighbor list belongs to every valid maximal
/// independent set: nothing excludes it from membership, so maximality
/// forces it in.
pub proof fn lemma_isolated_in_mis(g: Seq<Seq<usize>>, s: Seq<bool>, v: int)
    requires
        valid_mis(g, s),
        0 <= v < g.len(),
        g[v].len() == 0,
    ensures
        sel(s, v),
{
    if !sel(s, v) {
        assert(has_nbr_in(g, s, v));
        let u = choose|u: int| edge(g, v, u) && sel(s, u);
        let k = choose|k: int| 0 <= k < g[v].len() && g[v][k] as int == u;
        assert(false);
    }
}

/// The state invariant of the engine's round loop over the active set `a`
/// and the accumulator `m`: the accumulator is independent, every settled
/// vertex outside it lists a member, every active vertex is still free of
/// it, and no member's neighbor is still active.
pub open spec fn round_inv(g: Seq<Seq<usize>>, a: Seq<bool>, m: Seq<bool>) -> bool {
    &&& a.len() == g.len()
    &&& m.len() == g.len()
    &&& independent(g, m)
    &&& (forall|v: int| 0 <= v < g.len() && !sel(a, v) && !sel(m, v) ==> has_nbr_in(g, m, v))
    &&& (forall|v: int| sel(a, v) ==> !sel(m, v) && !has_nbr_in(g, m, v))
    &&& (forall|u: int, k: int|
        sel(m, u) && 0 <= k < g[u].len() ==> !sel(a, #[trigger] g[u][k] as int))
}

/// `v` is named as a neighbor by some member of `w`.
pub open spec fn dominated(g: Seq<Seq<usize>>, w: Seq<bool>, v: int) -> bool {
    exists|u: int| sel(w, u) && edge(g, u, v)
}

/// No winner's in-range neighbor entry, other than itself, is a winner too.
pub open spec fn no_adjacent_pair(g: Seq<Seq<usize>>, w: Seq<bool>) -> bool {
    forall|u: int, k: int|
        0 <= u < g.len() && 0 <= k < g[u].len() && (#[trigger] g[u][k] as int) != u
            ==> !(sel(w, u) && sel(w, g[u][k] as int))
}

} // verus!
