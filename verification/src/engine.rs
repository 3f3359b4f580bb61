//! The round engine: sampling, deterministic conflict resolution, and the
//! commit step, composed into one verified loop that every public entry
//! point shares.

use crate::model::{
    count_true, dominated, edge, gview, has_nbr_in, lemma_count_lt, no_adjacent_pair, round_inv,
    sel, valid_mis, wf,
};
use crate::sched::{degrees_with, sample_with, Sched};
use crate::validator::is_valid_mis;
use vstd::prelude::*;

verus! {

/// `u`'s neighbor list names `v` among its first `t` entries.
spec fn edge_upto(g: Seq<Seq<usize>>, u: int, v: int, t: int) -> bool {
    exists|k: int| 0 <= k < t && g[u][k] as int == v
}

/// `v` is named as a neighbor by a member of `w` below `i`.
spec fn dom_upto(g: Seq<Seq<usize>>, w: Seq<bool>, v: int, i: int) -> bool {
    exists|u: int| 0 <= u < i && sel(w, u) && edge(g, u, v)
}

proof fn lemma_edge_upto_step(g: Seq<Seq<usize>>, u: int, v: int, k: int)
    requires
        0 <= k,
    ensures
        edge_upto(g, u, v, k + 1) == (edge_upto(g, u, v, k) || g[u][k] as int == v),
{
    if edge_upto(g, u, v, k + 1) {
        let kk = choose|kk: int| 0 <= kk < k + 1 && g[u][kk] as int == v;
        if kk < k {
            assert(edge_upto(g, u, v, k));
        }
    }
    if edge_upto(g, u, v, k) {
        let kk = choose|kk: int| 0 <= kk < k && g[u][kk] as int == v;
        assert(0 <= kk < k + 1 && g[u][kk] as int == v);
        assert(edge_upto(g, u, v, k + 1));
    }
    if g[u][k] as int == v {
        assert(0 <= k < k + 1 && g[u][k] as int == v);
        assert(edge_upto(g, u, v, k + 1));
    }
}

proof fn lemma_edge_upto_full(g: Seq<Seq<usize>>, u: int, v: int)
    requires
        0 <= u < g.len(),
    ensures
        edge_upto(g, u, v, g[u].len() as int) == edge(g, u, v),
{
    if edge_upto(g, u, v, g[u].len() as int) {
        let k = choose|k: int| 0 <= k < g[u].len() && g[u][k] as int == v;
        assert(edge(g, u, v));
    }
    if edge(g, u, v) {
        let k = choose|k: int| 0 <= k < g[u].len() && g[u][k] as int == v;
        assert(edge_upto(g, u, v, g[u].len() as int));
    }
}

proof fn lemma_dom_upto_step(g: Seq<Seq<usize>>, w: Seq<bool>, u: int)
    requires
        0 <= u,
    ensures
        forall|v: int| #[trigger]
            dom_upto(g, w, v, u + 1) == (dom_upto(g, w, v, u) || (sel(w, u) && edge(g, u, v))),
{
    assert forall|v: int| #[trigger]
        dom_upto(g, w, v, u + 1) == (dom_upto(g, w, v, u) || (sel(w, u) && edge(g, u, v))) by {
        if dom_upto(g, w, v, u + 1) {
            let uu = choose|uu: int| 0 <= uu < u + 1 && sel(w, uu) && edge(g, uu, v);
            if uu < u {
                assert(dom_upto(g, w, v, u));
            }
        }
        if dom_upto(g, w, v, u) {
            let uu = choose|uu: int| 0 <= uu < u && sel(w, uu) && edge(g, uu, v);
            assert(0 <= uu < u + 1 && sel(w, uu) && edge(g, uu, v));
            assert(dom_upto(g, w, v, u + 1));
        }
        if sel(w, u) && edge(g, u, v) {
            assert(0 <= u < u + 1 && sel(w, u) && edge(g, u, v));
            assert(dom_upto(g, w, v, u + 1));
        }
    }
}

proof fn lemma_dom_upto_full(g: Seq<Seq<usize>>, w: Seq<bool>)
    requires
        w.len() == g.len(),
    ensures
        forall|v: int| #[trigger] dom_upto(g, w, v, g.len() as int) == dominated(g, w, v),
{
    assert forall|v: int| #[trigger]
        dom_upto(g, w, v, g.len() as int) == dominated(g, w, v) by {
        if dom_upto(g, w, v, g.len() as int) {
            let u = choose|u: int| 0 <= u < g.len() && sel(w, u) && edge(g, u, v);
            assert(dominated(g, w, v));
        }
        if dominated(g, w, v) {
            let u = choose|u: int| sel(w, u) && edge(g, u, v);
            assert(0 <= u < g.len() && sel(w, u) && edge(g, u, v));
            assert(dom_upto(g, w, v, g.len() as int));
        }
    }
}

/// A fresh copy of a membership vector.
fn copy_bools(src: &Vec<bool>) -> (r: Vec<bool>)
    ensures
        r@ == src@,
{
    let n = src.len();
    let mut r: Vec<bool> = Vec::new();
    let mut k: usize = 0;
    while k < n
        invariant
            n == src@.len(),
            k <= n,
            r@.len() == k,
            forall|i: int| 0 <= i < k ==> r@[i] == src@[i],
        decreases n - k,
    {
        r.push(src[k]);
        k += 1;
    }
    proof {
        assert(r@ =~= src@);
    }
    r
}

/// Whether any entry of a membership vector is set.
fn any_true(s: &Vec<bool>) -> (b: bool)
    ensures
        b == exists|v: int| sel(s@, v),
{
    let n = s.len();
    let mut k: usize = 0;
    while k < n
        invariant
            n == s@.len(),
            k <= n,
            forall|i: int| 0 <= i < k ==> !s@[i],
        decreases n - k,
    {
        if s[k] {
            proof {
                assert(sel(s@, k as int));
            }
            return true;
        }
        k += 1;
    }
    false
}

/// The first set entry of a membership vector, if any.
fn first_true(s: &Vec<bool>) -> (r: Option<usize>)
    ensures
        match r {
            Some(x) => x < s@.len() && s@[x as int],
            None => forall|v: int| !sel(s@, v),
        },
{
    let n = s.len();
    let mut k: usize = 0;
    while k < n
        invariant
            n == s@.len(),
            k <= n,
            forall|i: int| 0 <= i < k ==> !s@[i],
        decreases n - k,
    {
        if s[k] {
            return Some(k);
        }
        k += 1;
    }
    None
}

/// The deterministic tie break between two conflicting candidates: the
/// strictly higher degree wins, equal degrees fall back to the higher
/// vertex identifier, so either order of comparison settles on the same
/// survivor.
fn beats(degs: &Vec<usize>, v: usize, u: usize) -> (r: bool)
    requires
        v < degs@.len(),
        u < degs@.len(),
    ensures
        r == (degs@[v as int] > degs@[u as int] || (degs@[v as int] == degs@[u as int] && v
            > u)),
{
    degs[v] > degs[u] || (degs[v] == degs[u] && v > u)
}

/// Conflict resolution: every directed conflict between two distinct
/// candidates is settled by dropping the loser of the tie break, so no two
/// surviving winners name each other.
fn resolve(g: &Vec<Vec<usize>>, degs: &Vec<usize>, cand: &Vec<bool>) -> (w: Vec<bool>)
    requires
        cand@.len() == g@.len(),
        degs@.len() == g@.len(),
    ensures
        w@.len() == g@.len(),
        forall|v: int| sel(w@, v) ==> sel(cand@, v),
        no_adjacent_pair(gview(g@), w@),
{
    let ghost gv = gview(g@);
    let n = g.len();
    let mut w = copy_bools(cand);
    let mut u: usize = 0;
    while u < n
        invariant
            n == g@.len(),
            gv == gview(g@),
            cand@.len() == n,
            degs@.len() == n,
            w@.len() == n,
            forall|v: int| sel(w@, v) ==> sel(cand@, v),
            forall|uu: int, k: int|
                0 <= uu < u && 0 <= k < gv[uu].len() && (#[trigger] gv[uu][k] as int) != uu
                    ==> !(sel(w@, uu) && sel(w@, gv[uu][k] as int)),
        decreases n - u,
    {
        if cand[u] {
            let row = &g[u];
            let m = row.len();
            let mut k: usize = 0;
            while k < m
                invariant
                    n == g@.len(),
                    gv == gview(g@),
                    cand@.len() == n,
                    degs@.len() == n,
                    w@.len() == n,
                    u < n,
                    m == gv[u as int].len(),
                    row@ == gv[u as int],
                    k <= m,
                    forall|v: int| sel(w@, v) ==> sel(cand@, v),
                    forall|uu: int, kk: int|
                        0 <= uu < u && 0 <= kk < gv[uu].len() && (#[trigger] gv[uu][kk] as int)
                            != uu ==> !(sel(w@, uu) && sel(w@, gv[uu][kk] as int)),
                    forall|kk: int|
                        0 <= kk < k && (#[trigger] gv[u as int][kk] as int) != u
                            ==> !(sel(w@, u as int) && sel(w@, gv[u as int][kk] as int)),
                decreases m - k,
            {
                let j = row[k];
                if j != u && j < n && w[j] {
                    let ghost w_before = w@;
                    if beats(degs, u, j) {
                        w[j] = false;
                    } else {
                        w[u] = false;
                    }
                    proof {
                        assert(forall|x: int| sel(w@, x) ==> sel(w_before, x));
                    }
                }
                k += 1;
            }
        }
        u += 1;
    }
    w
}

/// The commit step: winners join the accumulator; winners and every vertex
/// their lists name leave the active set. The new sets are characterized
/// exactly.
fn commit(g: &Vec<Vec<usize>>, w: &Vec<bool>, active: &mut Vec<bool>, mis: &mut Vec<bool>)
    requires
        old(active)@.len() == g@.len(),
        old(mis)@.len() == g@.len(),
        w@.len() == g@.len(),
    ensures
        final(active)@.len() == g@.len(),
        final(mis)@.len() == g@.len(),
        forall|v: int| sel(final(mis)@, v) == (sel(old(mis)@, v) || sel(w@, v)),
        forall|v: int|
            sel(final(active)@, v) == (sel(old(active)@, v) && !sel(w@, v) && !dominated(
                gview(g@),
                w@,
                v,
            )),
{
    let ghost gv = gview(g@);
    let ghost a0 = active@;
    let ghost m0 = mis@;
    let n = g.len();
    let mut u: usize = 0;
    while u < n
        invariant
            n == g@.len(),
            gv == gview(g@),
            w@.len() == n,
            active@.len() == n,
            mis@.len() == n,
            a0.len() == n,
            m0.len() == n,
            u <= n,
            forall|v: int| 0 <= v < n && m0[v] ==> mis@[v],
            forall|v: int| 0 <= v < n && w@[v] && v < u ==> mis@[v],
            forall|v: int| 0 <= v < n && mis@[v] ==> m0[v] || (w@[v] && v < u),
            forall|v: int| 0 <= v < n && active@[v] ==> a0[v],
            forall|v: int| 0 <= v < n && w@[v] && v < u ==> !active@[v],
            forall|v: int|
                0 <= v < n && !active@[v] && a0[v] ==> (w@[v] && v < u) || dom_upto(
                    gv,
                    w@,
                    v,
                    u as int,
                ),
            forall|u2: int, k2: int|
                0 <= u2 < u && w@[u2] && 0 <= k2 < gv[u2].len() && (#[trigger] gv[u2][k2] as int)
                    < n ==> !active@[gv[u2][k2] as int],
        decreases n - u,
    {
        if w[u] {
            mis[u] = true;
            active[u] = false;
            let row = &g[u];
            let m = row.len();
            let mut k: usize = 0;
            while k < m
                invariant
                    n == g@.len(),
                    gv == gview(g@),
                    w@.len() == n,
                    active@.len() == n,
                    mis@.len() == n,
                    a0.len() == n,
                    m0.len() == n,
                    u < n,
                    w@[u as int],
                    m == gv[u as int].len(),
                    row@ == gv[u as int],
                    k <= m,
                    forall|v: int| 0 <= v < n && m0[v] ==> mis@[v],
                    forall|v: int| 0 <= v < n && w@[v] && v < u + 1 ==> mis@[v],
                    forall|v: int| 0 <= v < n && mis@[v] ==> m0[v] || (w@[v] && v < u + 1),
                    forall|v: int| 0 <= v < n && active@[v] ==> a0[v],
                    forall|v: int| 0 <= v < n && w@[v] && v < u + 1 ==> !active@[v],
                    forall|v: int|
                        0 <= v < n && !active@[v] && a0[v] ==> (w@[v] && v < u + 1) || dom_upto(
                            gv,
                            w@,
                            v,
                            u as int,
                        ) || edge_upto(gv, u as int, v, k as int),
                    forall|u2: int, k2: int|
                        0 <= u2 < u && w@[u2] && 0 <= k2 < gv[u2].len() && (#[trigger] gv[u2][k2]
                            as int) < n ==> !active@[gv[u2][k2] as int],
                    forall|k2: int|
                        0 <= k2 < k && (#[trigger] gv[u as int][k2] as int) < n
                            ==> !active@[gv[u as int][k2] as int],
                decreases m - k,
            {
                let j = row[k];
                if j < n {
                    active[j] = false;
                }
                proof {
                    assert(gv[u as int][k as int] as int == j as int);
                    assert forall|v: int|
                        0 <= v < n && !active@[v] && a0[v] implies (w@[v] && v < u + 1)
                            || dom_upto(gv, w@, v, u as int) || edge_upto(
                            gv,
                            u as int,
                            v,
                            k + 1,
                        ) by {
                        lemma_edge_upto_step(gv, u as int, v, k as int);
                    }
                }
                k += 1;
            }
            proof {
                lemma_dom_upto_step(gv, w@, u as int);
                assert forall|v: int|
                    0 <= v < n && !active@[v] && a0[v] implies (w@[v] && v < u + 1) || dom_upto(
                        gv,
                        w@,
                        v,
                        u as int + 1,
                    ) by {
                    lemma_edge_upto_full(gv, u as int, v);
                }
                assert forall|u2: int, k2: int|
                    0 <= u2 < u + 1 && w@[u2] && 0 <= k2 < gv[u2].len() && (#[trigger] gv[u2][k2]
                        as int) < n implies !active@[gv[u2][k2] as int] by {
                }
            }
        } else {
            proof {
                lemma_dom_upto_step(gv, w@, u as int);
            }
        }
        u += 1;
    }
    proof {
        lemma_dom_upto_full(gv, w@);
        assert forall|v: int| sel(mis@, v) == (sel(m0, v) || sel(w@, v)) by {
            if sel(w@, v) {
                assert(v < n);
                assert(mis@[v]);
            }
            if sel(m0, v) {
                assert(mis@[v]);
            }
            if sel(mis@, v) {
                assert(m0[v] || (w@[v] && v < n));
            }
        }
        assert forall|v: int|
            sel(active@, v) == (sel(a0, v) && !sel(w@, v) && !dominated(gv, w@, v)) by {
            if sel(active@, v) {
                assert(a0[v]);
                if sel(w@, v) {
                    assert(!active@[v]);
                }
                if dominated(gv, w@, v) {
                    let u2 = choose|u2: int| sel(w@, u2) && edge(gv, u2, v);
                    let k2 = choose|k2: int| 0 <= k2 < gv[u2].len() && gv[u2][k2] as int == v;
                    assert(!active@[gv[u2][k2] as int]);
                }
            }
            if sel(a0, v) && !sel(w@, v) && !dominated(gv, w@, v) {
                if !active@[v] {
                    assert((w@[v] && v < n) || dom_upto(gv, w@, v, n as int));
                }
                assert(active@[v]);
            }
        }
    }
}

/// One round: compute degrees, sample candidates, resolve conflicts, and
/// commit. If no candidate survived, one active vertex is promoted
/// directly — it is independent of the accumulator by the loop invariant —
/// so every round settles at least one vertex and the engine terminates on
/// every input.
fn round(g: &Vec<Vec<usize>>, s: Sched, active: &mut Vec<bool>, mis: &mut Vec<bool>)
    requires
        old(active)@.len() == g@.len(),
        old(mis)@.len() == g@.len(),
        exists|v: int| sel(old(active)@, v),
        wf(gview(g@)) ==> round_inv(gview(g@), old(active)@, old(mis)@),
    ensures
        final(active)@.len() == g@.len(),
        final(mis)@.len() == g@.len(),
        count_true(final(active)@) < count_true(old(active)@),
        wf(gview(g@)) ==> round_inv(gview(g@), final(active)@, final(mis)@),
{
    let ghost gv = gview(g@);
    let ghost a0 = old(active)@;
    let ghost m0 = old(mis)@;
    let degs = degrees_with(g, s);
    let cand = sample_with(active, &degs, s);
    let mut w = resolve(g, &degs, &cand);
    if !any_true(&w) {
        let ghost w_empty = w@;
        if let Some(x) = first_true(active) {
            w[x] = true;
            proof {
                assert forall|v: int| v != x implies !sel(w@, v) by {
                    if sel(w@, v) {
                        assert(w@[v] == w_empty[v]);
                        assert(sel(w_empty, v));
                    }
                }
                assert(sel(w@, x as int));
                assert(sel(a0, x as int));
            }
        } else {
            proof {
                assert(false);
            }
        }
    }
    proof {
        assert(forall|v: int| sel(w@, v) ==> sel(a0, v));
        assert(no_adjacent_pair(gv, w@));
        assert(exists|v: int| sel(w@, v));
    }
    let ghost ww = w@;
    commit(g, &w, active, mis);
    proof {
        let a1 = active@;
        let m1 = mis@;
        let x = choose|x: int| sel(ww, x);
        assert(!sel(a1, x));
        assert(sel(a0, x));
        assert forall|v: int| 0 <= v < a1.len() && a1[v] implies a0[v] by {
            assert(sel(a1, v));
            assert(sel(a0, v));
        }
        lemma_count_lt(a1, a0, x);
        if wf(gv) {
            // Independence of the grown accumulator.
            assert forall|u: int, v: int| sel(m1, u) && sel(m1, v) implies !edge(gv, u, v) by {
                if edge(gv, u, v) {
                    let k = choose|k: int| 0 <= k < gv[u].len() && gv[u][k] as int == v;
                    if sel(m0, u) {
                        if sel(m0, v) {
                            assert(!edge(gv, u, v));
                        } else {
                            // v is a winner still named by an old member: but no
                            // member's neighbor was active, and winners were.
                            assert(sel(ww, v));
                            assert(sel(a0, gv[u][k] as int) == sel(a0, v));
                            assert(false);
                        }
                    } else {
                        assert(sel(ww, u));
                        assert(sel(a0, u));
                        if sel(m0, v) {
                            // an active winner never named an old member
                            assert(has_nbr_in(gv, m0, u));
                            assert(false);
                        } else {
                            assert(sel(ww, v));
                            if v != u {
                                assert(gv[u][k] as int != u);
                                assert(!(sel(ww, u) && sel(ww, gv[u][k] as int)));
                                assert(false);
                            } else {
                                assert(0 <= v < gv.len());
                                assert(false);
                            }
                        }
                    }
                }
            }
            // Every settled vertex outside the accumulator names a member.
            assert forall|v: int| 0 <= v < gv.len() && !sel(a1, v) && !sel(m1, v) implies
                has_nbr_in(gv, m1, v) by {
                assert(!sel(m0, v) && !sel(ww, v));
                if !sel(a0, v) {
                    assert(has_nbr_in(gv, m0, v));
                    let u = choose|u: int| edge(gv, v, u) && sel(m0, u);
                    assert(edge(gv, v, u) && sel(m1, u));
                    assert(has_nbr_in(gv, m1, v));
                } else {
                    assert(dominated(gv, ww, v));
                    let u = choose|u: int| sel(ww, u) && edge(gv, u, v);
                    assert(edge(gv, v, u));
                    assert(sel(m1, u));
                    assert(has_nbr_in(gv, m1, v));
                }
            }
            // Active vertices stay free of the accumulator.
            assert forall|v: int| sel(a1, v) implies !sel(m1, v) && !has_nbr_in(gv, m1, v) by {
                assert(sel(a0, v) && !sel(ww, v) && !dominated(gv, ww, v));
                assert(!sel(m0, v));
                if has_nbr_in(gv, m1, v) {
                    let u = choose|u: int| edge(gv, v, u) && sel(m1, u);
                    if sel(m0, u) {
                        assert(has_nbr_in(gv, m0, v));
                        assert(false);
                    } else {
                        assert(sel(ww, u));
                        assert(0 <= u < gv.len());
                        assert(edge(gv, u, v));
                        assert(dominated(gv, ww, v));
                        assert(false);
                    }
                }
            }
            // No member's neighbor is still active.
            assert forall|u: int, k: int| sel(m1, u) && 0 <= k < gv[u].len() implies !sel(
                a1,
                gv[u][k] as int,
            ) by {
                let j = gv[u][k] as int;
                if sel(a1, j) {
                    assert(sel(a0, j) && !sel(ww, j) && !dominated(gv, ww, j));
                    if sel(m0, u) {
                        assert(!sel(a0, j));
                        assert(false);
                    } else {
                        assert(sel(ww, u));
                        assert(edge(gv, u, j));
                        assert(dominated(gv, ww, j));
                        assert(false);
                    }
                }
            }
        }
    }
}

/// The shared engine: rounds run until the active set is empty. On every
/// well-formed graph the result is a maximal independent set; on every
/// input the engine terminates and returns one entry per vertex.
fn engine(g: &Vec<Vec<usize>>, s: Sched) -> (mis: Vec<bool>)
    ensures
        mis@.len() == g@.len(),
        wf(gview(g@)) ==> valid_mis(gview(g@), mis@),
{
    let ghost gv = gview(g@);
    let n = g.len();
    let mut active = filled(n, true);
    let mut mis = filled(n, false);
    proof {
        assert forall|v: int| sel(active@, v) implies !sel(mis@, v) && !has_nbr_in(
            gv,
            mis@,
            v,
        ) by {
            if has_nbr_in(gv, mis@, v) {
                let u = choose|u: int| edge(gv, v, u) && sel(mis@, u);
                assert(false);
            }
        }
        assert(wf(gv) ==> round_inv(gv, active@, mis@));
    }
    let mut go = any_true(&active);
    while go
        invariant
            gv == gview(g@),
            active@.len() == g@.len(),
            mis@.len() == g@.len(),
            go == exists|v: int| sel(active@, v),
            wf(gv) ==> round_inv(gv, active@, mis@),
        decreases count_true(active@),
    {
        round(g, s, &mut active, &mut mis);
        go = any_true(&active);
    }
    proof {
        if wf(gv) {
            assert forall|v: int| 0 <= v < gv.len() && !sel(mis@, v) implies has_nbr_in(
                gv,
                mis@,
                v,
            ) by {
                assert(!sel(active@, v));
            }
        }
    }
    mis
}

/// A membership vector of `n` equal entries.
fn filled(n: usize, b: bool) -> (v: Vec<bool>)
    ensures
        v@.len() == n,
        forall|i: int| 0 <= i < n ==> v@[i] == b,
{
    let mut v: Vec<bool> = Vec::new();
    let mut k: usize = 0;
    while k < n
        invariant
            k <= n,
            v@.len() == k,
            forall|i: int| 0 <= i < k ==> v@[i] == b,
        decreases n - k,
    {
        v.push(b);
        k += 1;
    }
    v
}

/// Sequential engine: every round step on the calling thread.
pub fn luby_seq(g: &Vec<Vec<usize>>) -> (mis: Vec<bool>)
    ensures
        mis@.len() == g@.len(),
        wf(gview(g@)) ==> valid_mis(gview(g@), mis@),
{
    engine(g, Sched::Sequential)
}

/// Sequential engine under its short name, as the demonstration program
/// calls it.
pub fn luby(g: &Vec<Vec<usize>>) -> (mis: Vec<bool>)
    ensures
        mis@.len() == g@.len(),
        wf(gview(g@)) ==> valid_mis(gview(g@), mis@),
{
    engine(g, Sched::Sequential)
}

/// Parallel engine: degree and sampling passes fan out one task per vertex.
pub fn luby_algo(g: &Vec<Vec<usize>>) -> (mis: Vec<bool>)
    ensures
        mis@.len() == g@.len(),
        wf(gview(g@)) ==> valid_mis(gview(g@), mis@),
{
    engine(g, Sched::PerVertex)
}

/// Parallel engine over fixed-size chunks of the vertex range, with the
/// per-chunk results concatenated in order.
pub fn luby_algo_par_chunck(g: &Vec<Vec<usize>>) -> (mis: Vec<bool>)
    ensures
        mis@.len() == g@.len(),
        wf(gview(g@)) ==> valid_mis(gview(g@), mis@),
{
    engine(g, Sched::Chunked)
}

/// Parallel engine that also chunks the degree pass and merges the local
/// results by a parallel reduction.
pub fn luby_algo_par_chunck2(g: &Vec<Vec<usize>>) -> (mis: Vec<bool>)
    ensures
        mis@.len() == g@.len(),
        wf(gview(g@)) ==> valid_mis(gview(g@), mis@),
{
    engine(g, Sched::ChunkedMerge)
}

/// Computes a maximal independent set and immediately runs the validator
/// on it. The returned flag is the validator's verdict on the returned
/// set, and on every well-formed graph it is true: the validator always
/// accepts what the engine produced.
pub fn luby_checked(g: &Vec<Vec<usize>>) -> (r: (Vec<bool>, bool))
    ensures
        r.1 == valid_mis(gview(g@), r.0@),
        wf(gview(g@)) ==> r.1,
{
    let s = luby_seq(g);
    let ok = is_valid_mis(g, &s);
    (s, ok)
}

} // verus!
