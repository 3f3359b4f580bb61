//! The validator: a pure check that a candidate set is a maximal
//! independent set of a graph. It never fails; its verdict is exactly the
//! specification predicate.

use crate::model::{edge, gview, has_nbr_in, independent, maximal, sel, valid_mis};
use vstd::prelude::*;

verus! {

/// Whether vertex `v` lists at least one member of `s` as a neighbor.
fn has_member_nbr(g: &Vec<Vec<usize>>, s: &Vec<bool>, v: usize) -> (b: bool)
    requires
        v < g@.len(),
    ensures
        b == has_nbr_in(gview(g@), s@, v as int),
{
    let ghost gv = gview(g@);
    let row = &g[v];
    let m = row.len();
    let mut k: usize = 0;
    while k < m
        invariant
            gv == gview(g@),
            v < g@.len(),
            m == gv[v as int].len(),
            row@ == gv[v as int],
            k <= m,
            forall|kk: int| 0 <= kk < k ==> !sel(s@, #[trigger] gv[v as int][kk] as int),
        decreases m - k,
    {
        let j = row[k];
        if j < s.len() && s[j] {
            proof {
                assert(edge(gv, v as int, j as int));
                assert(sel(s@, j as int));
            }
            return true;
        }
        k += 1;
    }
    proof {
        if has_nbr_in(gv, s@, v as int) {
            let u = choose|u: int| edge(gv, v as int, u) && sel(s@, u);
            let kk = choose|kk: int| 0 <= kk < gv[v as int].len() && gv[v as int][kk] as int == u;
            assert(false);
        }
    }
    false
}

/// Checks independence and maximality of `s` against `g` in one pass:
/// a member with a member neighbor breaks independence, a non-member
/// without one breaks maximality. The verdict equals the specification
/// predicate on every pair of inputs, whatever their lengths.
pub fn is_valid_mis(g: &Vec<Vec<usize>>, s: &Vec<bool>) -> (r: bool)
    ensures
        r == valid_mis(gview(g@), s@),
{
    let ghost gv = gview(g@);
    let n = g.len();
    let mut v: usize = 0;
    while v < n
        invariant
            gv == gview(g@),
            n == g@.len(),
            v <= n,
            forall|u: int|
                0 <= u < v ==> (sel(s@, u) == !has_nbr_in(gv, s@, u)),
        decreases n - v,
    {
        let inside = v < s.len() && s[v];
        let nbr = has_member_nbr(g, s, v);
        if inside && nbr {
            proof {
                let u = choose|u: int| edge(gv, v as int, u) && sel(s@, u);
                assert(sel(s@, v as int) && sel(s@, u) && edge(gv, v as int, u));
                assert(!independent(gv, s@));
            }
            return false;
        }
        if !inside && !nbr {
            proof {
                assert(0 <= v < gv.len() && !sel(s@, v as int) && !has_nbr_in(gv, s@, v as int));
                assert(!maximal(gv, s@));
            }
            return false;
        }
        v += 1;
    }
    proof {
        assert forall|u: int, x: int| sel(s@, u) && sel(s@, x) implies !edge(gv, u, x) by {
            if edge(gv, u, x) {
                assert(0 <= u < gv.len());
                assert(has_nbr_in(gv, s@, u));
                assert(!sel(s@, u));
            }
        }
        assert forall|x: int| 0 <= x < gv.len() && !sel(s@, x) implies has_nbr_in(gv, s@, x) by {
            assert(sel(s@, x) == !has_nbr_in(gv, s@, x));
        }
    }
    true
}

} // verus!
