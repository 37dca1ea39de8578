use vstd::prelude::*;

verus! {

/// A half-open range `[beg, end)` of linear pixel indices handed to one worker.
#[derive(Clone, Copy, Debug, PartialEq, Eq, Structural)]
pub struct Chunk {
    pub beg: usize,
    pub end: usize,
}

/// Size of every chunk but the last, which also takes the remainder.
pub open spec fn job_size(total: nat, workers: nat) -> nat
    recommends
        workers >= 1,
{
    total / workers
}

/// The chunk given to worker `w` of `workers` over `[0, total)`.
pub open spec fn chunk_spec(total: nat, workers: nat, w: nat) -> (nat, nat) {
    let js = job_size(total, workers);
    if w + 1 == workers {
        (js * w, total)
    } else {
        (js * w, js * (w + 1))
    }
}

/// Worker `w`'s chunk: the first `workers - 1` chunks have `total / workers`
/// indices each, the last runs to `total`.
pub fn chunk_bounds(total: usize, workers: usize, w: usize) -> (r: Chunk)
    requires
        workers >= 1,
        w < workers,
    ensures
        (r.beg as nat, r.end as nat) == chunk_spec(total as nat, workers as nat, w as nat),
        r.beg <= r.end <= total,
{
    let js = total / workers;
    proof {
        assert(js * w <= js * (workers - 1)) by (nonlinear_arith)
            requires w < workers;
        assert(js * (workers - 1) <= js * workers) by (nonlinear_arith);
        assert(js * workers <= total) by (nonlinear_arith)
            requires js == total / workers, workers >= 1;
        assert(js * w <= js * (w + 1)) by (nonlinear_arith);
        if w + 1 < workers {
            assert(js * (w + 1) <= js * workers) by (nonlinear_arith)
                requires w + 1 < workers;
        }
    }
    let beg = js * w;
    let end = if w + 1 == workers { total } else { js * (w + 1) };
    Chunk { beg, end }
}

/// The chunks of a plan lie end to end: the first starts at 0, each starts
/// where the one before it ends, and the last ends at `total`.
pub open spec fn tiles(plan: Seq<Chunk>, total: nat) -> bool {
    &&& plan.len() >= 1
    &&& plan[0].beg == 0
    &&& plan[plan.len() - 1].end == total
    &&& forall|w: int| 0 <= w < plan.len() ==> (#[trigger] plan[w]).beg <= plan[w].end
    &&& forall|w: int| 0 <= w < plan.len() - 1 ==> (#[trigger] plan[w]).end == plan[w + 1].beg
}

pub open spec fn in_chunk(c: Chunk, i: int) -> bool {
    c.beg <= i < c.end
}

/// Splits `[0, total)` into `workers` contiguous chunks, one per worker.
pub fn partition(total: usize, workers: usize) -> (r: Vec<Chunk>)
    requires
        workers >= 1,
    ensures
        r@.len() == workers,
        forall|w: int|
            0 <= w < workers ==> ((#[trigger] r@[w]).beg as nat, r@[w].end as nat) == chunk_spec(
                total as nat,
                workers as nat,
                w as nat,
            ),
        tiles(r@, total as nat),
{
    let mut r: Vec<Chunk> = Vec::new();
    let mut w: usize = 0;
    while w < workers
        invariant
            w <= workers,
            workers >= 1,
            r@.len() == w,
            forall|v: int|
                0 <= v < w ==> ((#[trigger] r@[v]).beg as nat, r@[v].end as nat) == chunk_spec(
                    total as nat,
                    workers as nat,
                    v as nat,
                ),
            forall|v: int| 0 <= v < w ==> (#[trigger] r@[v]).beg <= r@[v].end,
        decreases workers - w,
    {
        let c = chunk_bounds(total, workers, w);
        r.push(c);
        w = w + 1;
    }
    proof {
        let js = job_size(total as nat, workers as nat);
        assert(r@[0].beg == 0) by {
            assert(js * 0 == 0) by (nonlinear_arith);
        }
        assert forall|v: int| 0 <= v < r@.len() - 1 implies (#[trigger] r@[v]).end == r@[v + 1].beg by {
            assert(r@[v].end == js * (v + 1));
        }
    }
    r
}

/// Every index below `total` lies in exactly one chunk of a plan that tiles
/// `[0, total)`, and no index at or past `total` lies in any.
pub proof fn lemma_tiles_cover_once(plan: Seq<Chunk>, total: nat, i: int)
    requires
        tiles(plan, total),
    ensures
        0 <= i < total ==> exists|w: int| 0 <= w < plan.len() && in_chunk(#[trigger] plan[w], i),
        forall|w1: int, w2: int|
            0 <= w1 < plan.len() && 0 <= w2 < plan.len() && in_chunk(#[trigger] plan[w1], i)
                && in_chunk(#[trigger] plan[w2], i) ==> w1 == w2,
        !(0 <= i < total) ==> forall|w: int| 0 <= w < plan.len() ==> !in_chunk(#[trigger] plan[w], i),
{
    lemma_tiles_monotone(plan, total);
    if 0 <= i < total {
        lemma_tiles_find(plan, total, i, plan.len() - 1);
    }
}

/// Chunk bounds never decrease along a plan, and all lie within `[0, total]`.
pub proof fn lemma_tiles_monotone(plan: Seq<Chunk>, total: nat)
    requires
        tiles(plan, total),
    ensures
        forall|a: int, b: int| 0 <= a < b < plan.len() ==> (#[trigger] plan[a]).end <= (#[trigger] plan[b]).beg,
        forall|a: int| 0 <= a < plan.len() ==> 0 <= (#[trigger] plan[a]).beg && plan[a].end <= total,
{
    assert forall|a: int, b: int| 0 <= a < b < plan.len() implies (#[trigger] plan[a]).end <= (#[trigger] plan[b]).beg by {
        lemma_tiles_step(plan, total, a, b);
    }
    assert forall|a: int| 0 <= a < plan.len() implies 0 <= (#[trigger] plan[a]).beg && plan[a].end <= total by {
        if a > 0 {
            lemma_tiles_step(plan, total, 0, a);
        }
        if a < plan.len() - 1 {
            lemma_tiles_step(plan, total, a, plan.len() - 1);
        }
    }
}

proof fn lemma_tiles_step(plan: Seq<Chunk>, total: nat, a: int, b: int)
    requires
        tiles(plan, total),
        0 <= a < b < plan.len(),
    ensures
        plan[a].end <= plan[b].beg,
    decreases b - a,
{
    if b > a + 1 {
        lemma_tiles_step(plan, total, a, b - 1);
        assert(plan[b - 1].beg <= plan[b - 1].end);
        assert(plan[b - 1].end == plan[b].beg);
    } else {
        assert(plan[a].end == plan[a + 1].beg);
    }
}

/// Some chunk among the first `upto + 1` holds `i`, when `i` lies below the end
/// of chunk `upto`.
proof fn lemma_tiles_find(plan: Seq<Chunk>, total: nat, i: int, upto: int)
    requires
        tiles(plan, total),
        0 <= upto < plan.len(),
        0 <= i < plan[upto].end,
    ensures
        exists|w: int| 0 <= w <= upto && in_chunk(#[trigger] plan[w], i),
    decreases upto,
{
    if i >= plan[upto].beg {
        assert(in_chunk(plan[upto], i));
    } else {
        assert(upto > 0);
        assert(plan[upto - 1].end == plan[upto].beg);
        lemma_tiles_find(plan, total, i, upto - 1);
        let w = choose|w: int| 0 <= w <= upto - 1 && in_chunk(#[trigger] plan[w], i);
        assert(in_chunk(plan[w], i));
    }
}

} // verus!
