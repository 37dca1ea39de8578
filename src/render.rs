use vstd::prelude::*;
use crate::partition::{Chunk, tiles, in_chunk, partition, lemma_tiles_cover_once, lemma_tiles_monotone};
use crate::range::{GlobalRange, global_range, all_finite, lemma_range_unique};

verus! {

/// `buf` holds, at each index below `total`, a value the kernel may return
/// for that index.
pub open spec fn computed_by<F: Fn(usize) -> u64>(kernel: F, total: nat, buf: Seq<u64>) -> bool {
    &&& buf.len() == total
    &&& forall|i: int| 0 <= i < total ==> kernel.ensures((i as usize,), #[trigger] buf[i])
}

/// `out` holds, at each index, a colour the mapper may return for the value
/// at that index, given the range `g`.
pub open spec fn colored_by<F: Fn(GlobalRange, u64) -> u32>(
    color: F,
    g: GlobalRange,
    values: Seq<u64>,
    out: Seq<u32>,
) -> bool {
    &&& out.len() == values.len()
    &&& forall|i: int| 0 <= i < values.len() ==> color.ensures((g, values[i]), #[trigger] out[i])
}

/// `parts[w]` has exactly as many entries as chunk `w` has indices.
pub open spec fn parts_fit<T>(plan: Seq<Chunk>, parts: Seq<Vec<T>>) -> bool {
    &&& parts.len() == plan.len()
    &&& forall|w: int|
        0 <= w < plan.len() ==> (#[trigger] parts[w])@.len() == plan[w].end - plan[w].beg
}

/// Runs the kernel on each index of `[beg, end)`, in order.
pub fn do_mandel_range<F: Fn(usize) -> u64>(beg: usize, end: usize, kernel: &F) -> (r: Vec<u64>)
    requires
        beg <= end,
        forall|i: usize| beg <= i < end ==> kernel.requires((i,)),
    ensures
        r@.len() == end - beg,
        forall|j: int| 0 <= j < end - beg ==> kernel.ensures(((beg + j) as usize,), #[trigger] r@[j]),
{
    let mut r: Vec<u64> = Vec::new();
    let mut i: usize = beg;
    while i < end
        invariant
            beg <= i <= end,
            r@.len() == i - beg,
            forall|k: usize| beg <= k < end ==> kernel.requires((k,)),
            forall|j: int| 0 <= j < i - beg ==> kernel.ensures(((beg + j) as usize,), #[trigger] r@[j]),
        decreases end - i,
    {
        let v = kernel(i);
        r.push(v);
        i = i + 1;
    }
    r
}

/// Maps each value of `values[beg..end]` to a colour under the range `g`.
pub fn do_map_to_argb_range<F: Fn(GlobalRange, u64) -> u32>(
    values: &Vec<u64>,
    g: GlobalRange,
    beg: usize,
    end: usize,
    color: &F,
) -> (r: Vec<u32>)
    requires
        beg <= end <= values@.len(),
        forall|x: u64| color.requires((g, x)),
    ensures
        r@.len() == end - beg,
        forall|j: int| 0 <= j < end - beg ==> color.ensures((g, values@[beg + j]), #[trigger] r@[j]),
{
    let mut r: Vec<u32> = Vec::new();
    let mut i: usize = beg;
    while i < end
        invariant
            beg <= i <= end <= values@.len(),
            r@.len() == i - beg,
            forall|x: u64| color.requires((g, x)),
            forall|j: int| 0 <= j < i - beg ==> color.ensures((g, values@[beg + j]), #[trigger] r@[j]),
        decreases end - i,
    {
        let c = color(g, values[i]);
        r.push(c);
        i = i + 1;
    }
    r
}

/// Lays the results of each chunk of a plan end to end: the buffer every
/// worker filled its own part of.
pub fn join_parts<T: Copy>(total: usize, plan: &Vec<Chunk>, parts: &Vec<Vec<T>>) -> (r: Vec<T>)
    requires
        tiles(plan@, total as nat),
        parts_fit(plan@, parts@),
    ensures
        r@.len() == total,
        forall|w: int, j: int|
            0 <= w < plan@.len() && 0 <= j < plan@[w].end - plan@[w].beg ==> r@[plan@[w].beg + j]
                == #[trigger] parts@[w]@[j],
{
    let mut r: Vec<T> = Vec::new();
    let mut w: usize = 0;
    while w < plan.len()
        invariant
            tiles(plan@, total as nat),
            parts_fit(plan@, parts@),
            w <= plan@.len(),
            w == 0 ==> r@.len() == 0,
            0 < w ==> r@.len() == plan@[w - 1].end,
            forall|v: int| 0 <= v < w ==> (#[trigger] plan@[v]).end <= r@.len(),
            forall|v: int, j: int|
                0 <= v < w && 0 <= j < plan@[v].end - plan@[v].beg ==> r@[plan@[v].beg + j]
                    == #[trigger] parts@[v]@[j],
        decreases plan@.len() - w,
    {
        proof {
            if w > 0 {
                assert(plan@[w - 1].end == plan@[w as int].beg);
            }
        }
        let part = &parts[w];
        let mut j: usize = 0;
        while j < part.len()
            invariant
                tiles(plan@, total as nat),
                parts_fit(plan@, parts@),
                w < plan@.len(),
                *part == parts@[w as int],
                j <= part@.len(),
                r@.len() == plan@[w as int].beg + j,
                forall|v: int| 0 <= v < w ==> (#[trigger] plan@[v]).end <= plan@[w as int].beg,
                forall|v: int, k: int|
                    0 <= v < w && 0 <= k < plan@[v].end - plan@[v].beg ==> r@[plan@[v].beg + k]
                        == #[trigger] parts@[v]@[k],
                forall|k: int| 0 <= k < j ==> r@[plan@[w as int].beg + k] == part@[k],
            decreases part@.len() - j,
        {
            r.push(part[j]);
            j = j + 1;
        }
        w = w + 1;
    }
    r
}

/// Runs the kernel over every chunk of a plan, one part per chunk.
fn run_plan<F: Fn(usize) -> u64>(total: usize, plan: &Vec<Chunk>, kernel: &F) -> (parts: Vec<Vec<u64>>)
    requires
        tiles(plan@, total as nat),
        forall|i: usize| i < total ==> kernel.requires((i,)),
    ensures
        parts_fit(plan@, parts@),
        forall|v: int, j: int|
            0 <= v < plan@.len() && 0 <= j < plan@[v].end - plan@[v].beg ==> kernel.ensures(
                ((plan@[v].beg + j) as usize,),
                #[trigger] parts@[v]@[j],
            ),
{
    proof {
        lemma_tiles_monotone(plan@, total as nat);
    }
    let mut parts: Vec<Vec<u64>> = Vec::new();
    let mut w: usize = 0;
    while w < plan.len()
        invariant
            w <= plan@.len(),
            forall|v: int| 0 <= v < plan@.len() ==> 0 <= (#[trigger] plan@[v]).beg <= plan@[v].end <= total,
            forall|i: usize| i < total ==> kernel.requires((i,)),
            parts@.len() == w,
            forall|v: int|
                0 <= v < w ==> (#[trigger] parts@[v])@.len() == plan@[v].end - plan@[v].beg,
            forall|v: int, j: int|
                0 <= v < w && 0 <= j < plan@[v].end - plan@[v].beg ==> kernel.ensures(
                    ((plan@[v].beg + j) as usize,),
                    #[trigger] parts@[v]@[j],
                ),
        decreases plan@.len() - w,
    {
        let c = plan[w];
        let part = do_mandel_range(c.beg, c.end, kernel);
        parts.push(part);
        w = w + 1;
    }
    parts
}

/// Computes the divergence buffer of an `n` by `n` grid: the index range is
/// split into `workers` chunks, the kernel runs over each, and the parts are
/// joined.
pub fn do_mandel<F: Fn(usize) -> u64>(n: usize, workers: usize, kernel: &F) -> (r: Vec<u64>)
    requires
        workers >= 1,
        n * n <= usize::MAX,
        forall|i: usize| i < n * n ==> kernel.requires((i,)),
    ensures
        computed_by(*kernel, (n * n) as nat, r@),
{
    let total = n * n;
    let plan = partition(total, workers);
    let parts = run_plan(total, &plan, kernel);
    let r = join_parts(total, &plan, &parts);
    assert forall|i: int| 0 <= i < total implies kernel.ensures((i as usize,), #[trigger] r@[i]) by {
        lemma_tiles_cover_once(plan@, total as nat, i);
        let w = choose|w: int| 0 <= w < plan@.len() && in_chunk(#[trigger] plan@[w], i);
        assert(r@[plan@[w].beg + (i - plan@[w].beg)] == parts@[w]@[i - plan@[w].beg]);
    }
    r
}

/// Maps every chunk of a plan over `values` to colours, one part per chunk.
fn color_plan<F: Fn(GlobalRange, u64) -> u32>(
    values: &Vec<u64>,
    g: GlobalRange,
    plan: &Vec<Chunk>,
    color: &F,
) -> (parts: Vec<Vec<u32>>)
    requires
        tiles(plan@, values@.len()),
        forall|x: u64| color.requires((g, x)),
    ensures
        parts_fit(plan@, parts@),
        forall|v: int, j: int|
            0 <= v < plan@.len() && 0 <= j < plan@[v].end - plan@[v].beg ==> color.ensures(
                (g, values@[plan@[v].beg + j]),
                #[trigger] parts@[v]@[j],
            ),
{
    proof {
        lemma_tiles_monotone(plan@, values@.len());
    }
    let mut parts: Vec<Vec<u32>> = Vec::new();
    let mut w: usize = 0;
    while w < plan.len()
        invariant
            w <= plan@.len(),
            forall|v: int|
                0 <= v < plan@.len() ==> 0 <= (#[trigger] plan@[v]).beg <= plan@[v].end <= values@.len(),
            forall|x: u64| color.requires((g, x)),
            parts@.len() == w,
            forall|v: int|
                0 <= v < w ==> (#[trigger] parts@[v])@.len() == plan@[v].end - plan@[v].beg,
            forall|v: int, j: int|
                0 <= v < w && 0 <= j < plan@[v].end - plan@[v].beg ==> color.ensures(
                    (g, values@[plan@[v].beg + j]),
                    #[trigger] parts@[v]@[j],
                ),
        decreases plan@.len() - w,
    {
        let c = plan[w];
        let part = do_map_to_argb_range(values, g, c.beg, c.end, color);
        parts.push(part);
        w = w + 1;
    }
    parts
}

/// Colours a fully computed divergence buffer. The global range is taken
/// first, once, over the whole buffer; only then are the chunks of `workers`
/// mapped to colours under it. Returns `None`, colouring nothing, where the
/// buffer has no range (it is empty, or holds an infinity or a NaN).
pub fn do_map_to_argb<F: Fn(GlobalRange, u64) -> u32>(
    values: &Vec<u64>,
    workers: usize,
    color: &F,
) -> (r: Option<Vec<u32>>)
    requires
        workers >= 1,
        forall|g: GlobalRange, x: u64| color.requires((g, x)),
    ensures
        r.is_some() <==> values@.len() > 0 && all_finite(values@),
        r matches Some(out) ==> exists|g: GlobalRange| g.bounds(values@) && colored_by(*color, g, values@, out@),
{
    let g = match global_range(values) {
        Some(g) => g,
        None => return None,
    };
    let plan = partition(values.len(), workers);
    let parts = color_plan(values, g, &plan, color);
    let r = join_parts(values.len(), &plan, &parts);
    assert forall|i: int| 0 <= i < values@.len() implies color.ensures((g, values@[i]), #[trigger] r@[i]) by {
        lemma_tiles_cover_once(plan@, values@.len(), i);
        let w = choose|w: int| 0 <= w < plan@.len() && in_chunk(#[trigger] plan@[w], i);
        assert(r@[plan@[w].beg + (i - plan@[w].beg)] == parts@[w]@[i - plan@[w].beg]);
    }
    assert(colored_by(*color, g, values@, r@));
    Some(r)
}

/// A kernel that returns one value for each index.
pub open spec fn kernel_is_function<F: Fn(usize) -> u64>(kernel: F) -> bool {
    forall|i: usize, x: u64, y: u64|
        #![trigger kernel.ensures((i,), x), kernel.ensures((i,), y)]
        kernel.ensures((i,), x) && kernel.ensures((i,), y) ==> x == y
}

/// A colour mapper that returns one colour for each range and value.
pub open spec fn color_is_function<F: Fn(GlobalRange, u64) -> u32>(color: F) -> bool {
    forall|g: GlobalRange, v: u64, x: u32, y: u32|
        #![trigger color.ensures((g, v), x), color.ensures((g, v), y)]
        color.ensures((g, v), x) && color.ensures((g, v), y) ==> x == y
}

/// The divergence buffer does not depend on the number of workers: with a
/// kernel that gives one value per index, any two buffers it computed over the
/// same grid, however the grid was split, are equal.
pub proof fn lemma_buffer_independent_of_workers<F: Fn(usize) -> u64>(
    kernel: F,
    total: nat,
    a: Seq<u64>,
    b: Seq<u64>,
)
    requires
        kernel_is_function(kernel),
        computed_by(kernel, total, a),
        computed_by(kernel, total, b),
    ensures
        a == b,
{
    assert forall|i: int| 0 <= i < total implies a[i] == b[i] by {
        assert(kernel.ensures((i as usize,), a[i]));
        assert(kernel.ensures((i as usize,), b[i]));
    }
    assert(a =~= b);
}

/// The colour buffer does not depend on the number of workers either: two
/// colourings of one divergence buffer, each under a global range of it, by a
/// mapper that gives one colour per input, are equal.
pub proof fn lemma_colors_independent_of_workers<F: Fn(GlobalRange, u64) -> u32>(
    color: F,
    values: Seq<u64>,
    a: Seq<u32>,
    b: Seq<u32>,
)
    requires
        color_is_function(color),
        exists|g: GlobalRange| g.bounds(values) && colored_by(color, g, values, a),
        exists|g: GlobalRange| g.bounds(values) && colored_by(color, g, values, b),
    ensures
        a == b,
{
    let ga = choose|g: GlobalRange| g.bounds(values) && colored_by(color, g, values, a);
    let gb = choose|g: GlobalRange| g.bounds(values) && colored_by(color, g, values, b);
    lemma_range_unique(values, ga, gb);
    assert forall|i: int| 0 <= i < values.len() implies a[i] == b[i] by {
        assert(color.ensures((ga, values[i]), a[i]));
        assert(color.ensures((ga, values[i]), b[i]));
    }
    assert(a =~= b);
}

} // verus!
