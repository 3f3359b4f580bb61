//! Per-round work: degree computation and candidate sampling, in the
//! scheduling flavors the engine offers. The parallel flavors call into
//! rayon through trusted wrappers whose closures only call verified
//! functions of this crate; the coin toss calls into rand the same way.

use crate::model::{gview, sel};
use rayon::iter::{IndexedParallelIterator, IntoParallelIterator, ParallelIterator};
use rayon::slice::ParallelSlice;
use vstd::prelude::*;

verus! {

/// How the per-round work is scheduled across workers.
#[derive(Clone, Copy)]
pub(crate) enum Sched {
    /// Everything on the calling thread.
    Sequential,
    /// One parallel task per vertex.
    PerVertex,
    /// Fixed-size chunks of the vertex range, results concatenated.
    Chunked,
    /// Chunks for the degree pass as well, merged by a parallel reduction.
    ChunkedMerge,
}

/// Relies on rand::random: one draw from the thread-local generator, so
/// concurrent callers never share generator state. Nothing is assumed of
/// the value.
#[verifier::external_body]
fn random_u64() -> u64 {
    rand::random::<u64>()
}

/// One biased coin toss for a vertex of the given degree: heads with
/// probability about `1 / (2 * degree)`, and surely for an isolated vertex.
fn coin(degree: usize) -> (c: bool)
    ensures
        degree == 0 ==> c,
{
    if degree == 0 {
        true
    } else {
        let d = degree as u64;
        random_u64() < u64::MAX / 2 / d
    }
}

/// Neighbor-list length of `v` in the static graph.
fn degree_of(g: &Vec<Vec<usize>>, v: usize) -> (d: usize)
    requires
        v < g@.len(),
    ensures
        d == gview(g@)[v as int].len(),
{
    g[v].len()
}

/// The sampling decision for one vertex: only active vertices can become
/// candidates, and an active vertex of degree zero always does.
fn sample_one(active: &Vec<bool>, degs: &Vec<usize>, v: usize) -> (c: bool)
    requires
        v < active@.len(),
        degs@.len() == active@.len(),
    ensures
        c ==> active@[v as int],
        active@[v as int] && degs@[v as int] == 0 ==> c,
{
    if active[v] {
        coin(degs[v])
    } else {
        false
    }
}

/// Sampling decisions for a chunk of vertex identifiers, in chunk order.
fn sample_chunk(active: &Vec<bool>, degs: &Vec<usize>, ch: &[usize]) -> (r: Vec<bool>)
    requires
        degs@.len() == active@.len(),
        forall|k: int| 0 <= k < ch@.len() ==> (ch@[k] as int) < active@.len(),
    ensures
        r@.len() == ch@.len(),
        forall|k: int| 0 <= k < ch@.len() && r@[k] ==> active@[ch@[k] as int],
        forall|k: int|
            0 <= k < ch@.len() && active@[ch@[k] as int] && degs@[ch@[k] as int] == 0
                ==> r@[k],
{
    let mut r: Vec<bool> = Vec::new();
    let n = ch.len();
    let mut k: usize = 0;
    while k < n
        invariant
            n == ch@.len(),
            k <= n,
            degs@.len() == active@.len(),
            forall|i: int| 0 <= i < ch@.len() ==> (ch@[i] as int) < active@.len(),
            r@.len() == k,
            forall|i: int| 0 <= i < k && r@[i] ==> active@[ch@[i] as int],
            forall|i: int|
                0 <= i < k && active@[ch@[i] as int] && degs@[ch@[i] as int] == 0 ==> r@[i],
        decreases n - k,
    {
        r.push(sample_one(active, degs, ch[k]));
        k += 1;
    }
    r
}

/// Degrees for a chunk of vertex identifiers, in chunk order.
fn degrees_chunk(g: &Vec<Vec<usize>>, ch: &[usize]) -> (d: Vec<usize>)
    requires
        forall|k: int| 0 <= k < ch@.len() ==> (ch@[k] as int) < g@.len(),
    ensures
        d@.len() == ch@.len(),
        forall|k: int| 0 <= k < ch@.len() ==> d@[k] == gview(g@)[ch@[k] as int].len(),
{
    let mut d: Vec<usize> = Vec::new();
    let n = ch.len();
    let mut k: usize = 0;
    while k < n
        invariant
            n == ch@.len(),
            k <= n,
            forall|i: int| 0 <= i < ch@.len() ==> (ch@[i] as int) < g@.len(),
            d@.len() == k,
            forall|i: int| 0 <= i < k ==> d@[i] == gview(g@)[ch@[i] as int].len(),
        decreases n - k,
    {
        d.push(degree_of(g, ch[k]));
        k += 1;
    }
    d
}

/// An empty vector, for the identity of a parallel reduction.
fn empty_usize() -> (r: Vec<usize>)
    ensures
        r@ =~= Seq::<usize>::empty(),
{
    Vec::new()
}

/// The concatenation of two vectors, for a parallel reduction.
fn concat_usize(a: Vec<usize>, b: Vec<usize>) -> (r: Vec<usize>)
    ensures
        r@ == a@ + b@,
{
    let mut r = a;
    let n = b.len();
    let mut k: usize = 0;
    while k < n
        invariant
            n == b@.len(),
            k <= n,
            r@ =~= a@ + b@.subrange(0, k as int),
        decreases n - k,
    {
        r.push(b[k]);
        k += 1;
    }
    proof {
        assert(b@.subrange(0, n as int) =~= b@);
    }
    r
}

/// The identifiers `0, 1, ..., n - 1`, for chunked dispatch.
fn iota(n: usize) -> (v: Vec<usize>)
    ensures
        v@.len() == n,
        forall|i: int| 0 <= i < n ==> v@[i] as int == i,
{
    let mut v: Vec<usize> = Vec::new();
    let mut k: usize = 0;
    while k < n
        invariant
            k <= n,
            v@.len() == k,
            forall|i: int| 0 <= i < k ==> v@[i] as int == i,
        decreases n - k,
    {
        v.push(k);
        k += 1;
    }
    v
}

/// Relies on rayon's into_par_iter/map/collect over an index range: the
/// collected vector has one entry per index, in index order, each produced
/// by the closure, which only calls the verified `degree_of`.
#[verifier::external_body]
fn par_degrees(g: &Vec<Vec<usize>>) -> (d: Vec<usize>)
    ensures
        d@.len() == g@.len(),
        forall|v: int| 0 <= v < g@.len() ==> d@[v] == gview(g@)[v].len(),
{
    (0..g.len()).into_par_iter().map(|v| degree_of(g, v)).collect()
}

/// Relies on rayon's par_chunks/map/reduce: the chunks partition the
/// identifier slice in order, the closures only call the verified
/// `degrees_chunk`, `concat_usize` and `empty_usize`, and reduction with an
/// associative operation and its identity concatenates the per-chunk
/// results back in chunk order.
#[verifier::external_body]
fn par_degrees_merged(g: &Vec<Vec<usize>>, ids: &Vec<usize>, chunk: usize) -> (d: Vec<usize>)
    requires
        chunk >= 1,
        ids@.len() == g@.len(),
        forall|i: int| 0 <= i < ids@.len() ==> ids@[i] as int == i,
    ensures
        d@.len() == g@.len(),
        forall|v: int| 0 <= v < g@.len() ==> d@[v] == gview(g@)[v].len(),
{
    ids.par_chunks(chunk)
        .map(|ch| degrees_chunk(g, ch))
        .reduce(|| empty_usize(), |a, b| concat_usize(a, b))
}

/// Relies on rayon's into_par_iter/map/collect over an index range: the
/// collected vector has one entry per index, in index order, each produced
/// by the closure, which only calls the verified `sample_one`.
#[verifier::external_body]
fn par_sample(active: &Vec<bool>, degs: &Vec<usize>) -> (c: Vec<bool>)
    requires
        degs@.len() == active@.len(),
    ensures
        c@.len() == active@.len(),
        forall|v: int| sel(c@, v) ==> sel(active@, v),
        forall|v: int| 0 <= v < active@.len() && active@[v] && degs@[v] == 0 ==> c@[v],
{
    (0..active.len()).into_par_iter().map(|v| sample_one(active, degs, v)).collect()
}

/// Relies on rayon's par_chunks/flat_map/collect: the chunks partition the
/// identifier slice in order, the closure only calls the verified
/// `sample_chunk`, and collecting into a vector keeps the items in the
/// iterator's order, so entry `v` is the decision for vertex `v`.
#[verifier::external_body]
fn par_sample_chunks(active: &Vec<bool>, degs: &Vec<usize>, ids: &Vec<usize>, chunk: usize) -> (c:
    Vec<bool>)
    requires
        chunk >= 1,
        degs@.len() == active@.len(),
        ids@.len() == active@.len(),
        forall|i: int| 0 <= i < ids@.len() ==> ids@[i] as int == i,
    ensures
        c@.len() == active@.len(),
        forall|v: int| sel(c@, v) ==> sel(active@, v),
        forall|v: int| 0 <= v < active@.len() && active@[v] && degs@[v] == 0 ==> c@[v],
{
    ids.par_chunks(chunk).flat_map(|ch| sample_chunk(active, degs, ch)).collect()
}

/// A chunk size that divides `n` vertices into about `parts` chunks.
fn chunk_size(n: usize, parts: usize) -> (c: usize)
    requires
        parts >= 1,
    ensures
        c >= 1,
{
    let c = n / parts;
    if c == 0 {
        1
    } else {
        c
    }
}

/// The degree of every vertex in the static graph, under the chosen
/// scheduling flavor.
pub(crate) fn degrees_with(g: &Vec<Vec<usize>>, s: Sched) -> (d: Vec<usize>)
    ensures
        d@.len() == g@.len(),
        forall|v: int| 0 <= v < g@.len() ==> d@[v] == gview(g@)[v].len(),
{
    match s {
        Sched::Sequential => {
            let n = g.len();
            let mut d: Vec<usize> = Vec::new();
            let mut v: usize = 0;
            while v < n
                invariant
                    n == g@.len(),
                    v <= n,
                    d@.len() == v,
                    forall|i: int| 0 <= i < v ==> d@[i] == gview(g@)[i].len(),
                decreases n - v,
            {
                d.push(degree_of(g, v));
                v += 1;
            }
            d
        },
        Sched::PerVertex => par_degrees(g),
        Sched::Chunked => par_degrees(g),
        Sched::ChunkedMerge => {
            let ids = iota(g.len());
            let c = chunk_size(g.len(), 4);
            par_degrees_merged(g, &ids, c)
        },
    }
}

/// The candidate set for one round: each active vertex decides by its own
/// coin, isolated active vertices deterministically, under the chosen
/// scheduling flavor.
pub(crate) fn sample_with(active: &Vec<bool>, degs: &Vec<usize>, s: Sched) -> (c: Vec<bool>)
    requires
        degs@.len() == active@.len(),
    ensures
        c@.len() == active@.len(),
        forall|v: int| sel(c@, v) ==> sel(active@, v),
        forall|v: int| 0 <= v < active@.len() && active@[v] && degs@[v] == 0 ==> c@[v],
{
    match s {
        Sched::Sequential => {
            let n = active.len();
            let mut c: Vec<bool> = Vec::new();
            let mut v: usize = 0;
            while v < n
                invariant
                    n == active@.len(),
                    degs@.len() == active@.len(),
                    v <= n,
                    c@.len() == v,
                    forall|i: int| 0 <= i < v && c@[i] ==> active@[i],
                    forall|i: int| 0 <= i < v && active@[i] && degs@[i] == 0 ==> c@[i],
                decreases n - v,
            {
                c.push(sample_one(active, degs, v));
                v += 1;
            }
            c
        },
        Sched::PerVertex => par_sample(active, degs),
        Sched::Chunked => {
            let ids = iota(active.len());
            let c = chunk_size(active.len(), 32);
            par_sample_chunks(active, degs, &ids, c)
        },
        Sched::ChunkedMerge => {
            let ids = iota(active.len());
            let c = chunk_size(active.len(), 4);
            par_sample_chunks(active, degs, &ids, c)
        },
    }
}

} // verus!
