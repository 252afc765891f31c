//! The absorbing-boundary solver: a multi-source shortest-path computation
//! over the 4-connected grid graph with uniform edge weight 1, followed by
//! the conversion of distances into damping multipliers.
//!
//! Every cell that is neither a wall nor a sink ("free") is a source at
//! distance 0; the solver relaxes candidate distances popped from a FIFO
//! queue, committing one whenever it strictly improves the recorded minimum
//! and re-pushing the four neighbors with the candidate plus one. The
//! contract characterizes the result exactly: each cell receives the least
//! number of steps to a free cell, or the cell count `n` as a sentinel when
//! no free cell is reachable.

use crate::fixmath::{exp_neg, exp_neg_spec, lemma_exp_neg_antitone, lemma_exp_neg_range};
use crate::coord::Coord;
use crate::grid::Grid;
use crate::queue::{queue_is_empty, queue_items, queue_new, queue_pop, queue_push};
use vstd::arithmetic::div_mod::{lemma_fundamental_div_mod, lemma_fundamental_div_mod_converse};
use vstd::prelude::*;

verus! {

/// Two flat indexes of a row-major grid of row length `w` are 4-neighbors.
pub open spec fn adjacent(w: int, i: int, j: int) -> bool {
    let xi = i % w;
    let yi = i / w;
    let xj = j % w;
    let yj = j / w;
    (xi == xj && (yj == yi - 1 || yj == yi + 1)) || (yi == yj && (xj == xi - 1 || xj == xi + 1))
}

/// The cell `i` lies within `k` steps of a free cell.
pub open spec fn has_dist_le(free: Seq<bool>, w: int, i: int, k: nat) -> bool
    decreases k,
{
    0 <= i < free.len() && (free[i] || (k > 0 && exists|j: int|
        0 <= j < free.len() && #[trigger] adjacent(w, i, j) && has_dist_le(
            free,
            w,
            j,
            (k - 1) as nat,
        )))
}

/// `d` is the exact graph distance of cell `i` from the free region, with
/// the cell count `n` standing in when no free cell is reachable within
/// `n - 1` steps.
pub open spec fn dist_ok(free: Seq<bool>, w: int, n: int, i: int, d: int) -> bool {
    &&& 0 <= d <= n
    &&& (d < n ==> has_dist_le(free, w, i, d as nat))
    &&& forall|k: nat| #[trigger] has_dist_le(free, w, i, k) ==> d <= k
}

/// The exact graph distance, as picked out by its defining property.
pub open spec fn graph_dist(free: Seq<bool>, w: int, n: int, i: int) -> int {
    choose|d: int| #[trigger] dist_ok(free, w, n, i, d)
}

/// The distance property pins a single value down, so `graph_dist` equals
/// any value shown to satisfy it.
pub proof fn lemma_dist_ok_unique(free: Seq<bool>, w: int, n: int, i: int, d: int)
    requires
        dist_ok(free, w, n, i, d),
    ensures
        graph_dist(free, w, n, i) == d,
{
    let picked = graph_dist(free, w, n, i);
    assert(dist_ok(free, w, n, i, picked)) by {
        assert(exists|q: int| #[trigger] dist_ok(free, w, n, i, q)) by {
            assert(dist_ok(free, w, n, i, d));
        }
    }
    if picked < d {
        assert(picked < n);
        assert(has_dist_le(free, w, i, picked as nat));
    } else if d < picked {
        assert(d < n);
        assert(has_dist_le(free, w, i, d as nat));
    }
}

/// A free cell is at distance 0.
pub proof fn lemma_graph_dist_free(free: Seq<bool>, w: int, n: int, i: int)
    requires
        0 <= i < free.len(),
        n >= 1,
        free[i],
    ensures
        graph_dist(free, w, n, i) == 0,
{
    assert(has_dist_le(free, w, i, 0));
    lemma_dist_ok_unique(free, w, n, i, 0);
}

/// The damping multiplier derived from a distance: `exp(-(d/2)^2 * 1/200)`
/// in fixed point, and full absorption for the unreachable sentinel.
pub open spec fn mult_of_dist_spec(d: int, n: int) -> int {
    if d >= n {
        0
    } else {
        exp_neg_spec(d * d * 65536 / 800)
    }
}

/// Executable form of [`mult_of_dist_spec`].
pub fn mult_of_dist(d: i32, n: i32) -> (r: i64)
    requires
        0 <= d <= n,
    ensures
        r as int == mult_of_dist_spec(d as int, n as int),
{
    if d >= n {
        0
    } else {
        let dd: u128 = d as u128;
        proof {
            assert(dd as int * dd as int <= 0x4000_0000_0000_0000) by (nonlinear_arith)
                requires
                    0 <= dd as int <= 0x8000_0000;
        }
        let sq: u128 = dd * dd;
        let a: u128 = sq * 65536 / 800;
        proof {
            assert(d as int * d as int * 65536 / 800 == a as int);
            vstd::arithmetic::div_mod::lemma_div_is_ordered(
                sq as int * 65536,
                (0x4000_0000_0000_0000 as int) * 65536,
                800,
            );
            assert(sq as int * 65536 >= 0) by (nonlinear_arith)
                requires
                    sq as int >= 0;
            vstd::arithmetic::div_mod::lemma_div_pos_is_pos(sq as int * 65536, 800);
        }
        if a >= 0x100_0000 {
            0
        } else {
            exp_neg(a as i64)
        }
    }
}

/// The damping multiplier lies in `[0, 1]` and never increases with
/// distance: a cell farther from the free region is damped at least as
/// strongly.
pub proof fn lemma_mult_antitone(d1: int, d2: int, n: int)
    requires
        0 <= d1 <= d2 <= n,
    ensures
        0 <= mult_of_dist_spec(d2, n) <= mult_of_dist_spec(d1, n),
        mult_of_dist_spec(d1, n) <= crate::fixed::FX_ONE,
{
    if d1 < n {
        assert(d1 * d1 * 65536 >= 0) by (nonlinear_arith)
            requires
                d1 >= 0;
        vstd::arithmetic::div_mod::lemma_div_pos_is_pos(d1 * d1 * 65536, 800);
        lemma_exp_neg_range(d1 * d1 * 65536 / 800);
    }
    if d2 < n {
        assert(d1 * d1 <= d2 * d2) by (nonlinear_arith)
            requires
                0 <= d1 <= d2;
        vstd::arithmetic::div_mod::lemma_div_is_ordered(
            d1 * d1 * 65536,
            d2 * d2 * 65536,
            800,
        );
        assert(d2 * d2 * 65536 >= 0) by (nonlinear_arith)
            requires
                d2 >= 0;
        vstd::arithmetic::div_mod::lemma_div_pos_is_pos(d1 * d1 * 65536, 800);
        vstd::arithmetic::div_mod::lemma_div_pos_is_pos(d2 * d2 * 65536, 800);
        lemma_exp_neg_range(d2 * d2 * 65536 / 800);
        lemma_exp_neg_antitone(d1 * d1 * 65536 / 800, d2 * d2 * 65536 / 800);
    }
}

/// Any positive distance damps strictly: the multiplier of a cell one or
/// more steps from the free region lies strictly below the undamped 1 of
/// a free cell.
pub proof fn lemma_mult_strict(d: int, n: int)
    requires
        1 <= d <= n,
    ensures
        mult_of_dist_spec(d, n) < mult_of_dist_spec(0, n),
{
    lemma_mult_at_zero(n);
    if d < n {
        assert(d * d * 65536 >= 65536) by (nonlinear_arith)
            requires
                d >= 1;
        vstd::arithmetic::div_mod::lemma_div_is_ordered(65536, d * d * 65536, 800);
        crate::fixmath::lemma_exp_neg_strict(d * d * 65536 / 800);
    }
}

/// A free cell's multiplier is exactly 1: distance 0 gives no damping.
pub proof fn lemma_mult_at_zero(n: int)
    requires
        n >= 1,
    ensures
        mult_of_dist_spec(0, n) == crate::fixed::FX_ONE,
{
    crate::fixmath::lemma_exp_neg_at_zero();
}

/// The free mask: a cell is free when it is neither a wall nor a sink.
pub open spec fn free_mask(walls: Seq<bool>, sinks: Seq<bool>) -> Seq<bool> {
    Seq::new(walls.len(), |i: int| !walls[i] && !sinks[i])
}

/// The flat index of a queue entry's coordinate.
pub open spec fn eidx(e: (i32, i32, i32), w: int) -> int {
    e.0 + w * e.1
}

/// A queue entry is well-formed and truthful: its coordinate is on the grid
/// and its candidate distance is achievable.
pub open spec fn entry_ok(e: (i32, i32, i32), free: Seq<bool>, w: int, h: int, n: int) -> bool {
    &&& 0 <= e.0 < w
    &&& 0 <= e.1 < h
    &&& 0 <= e.2 <= n
    &&& has_dist_le(free, w, eidx(e, w), e.2 as nat)
}

/// Every queue entry is well-formed and truthful.
pub open spec fn entries_ok(
    items: Seq<(i32, i32, i32)>,
    free: Seq<bool>,
    w: int,
    h: int,
    n: int,
) -> bool {
    forall|t: int| 0 <= t < items.len() ==> entry_ok(#[trigger] items[t], free, w, h, n)
}

/// Some queue entry sits at cell `i` with a candidate distance at most `b`.
pub open spec fn pending(items: Seq<(i32, i32, i32)>, w: int, i: int, b: int) -> bool {
    exists|t: int| 0 <= t < items.len() && eidx(#[trigger] items[t], w) == i && items[t].2 <= b
}

/// The recorded distances are in range and truthful.
pub open spec fn dists_ok(ds: Seq<i32>, free: Seq<bool>, w: int, n: int) -> bool {
    &&& ds.len() == n
    &&& forall|i: int| 0 <= i < n ==> 0 <= #[trigger] ds[i] <= n
    &&& forall|i: int| 0 <= i < n && #[trigger] ds[i] < n ==> has_dist_le(free, w, i, ds[i] as nat)
}

/// Every free cell has either been committed at distance 0 or still has a
/// candidate-0 entry in the queue.
pub open spec fn free_covered(
    ds: Seq<i32>,
    items: Seq<(i32, i32, i32)>,
    free: Seq<bool>,
    w: int,
    n: int,
) -> bool {
    forall|i: int| 0 <= i < n && #[trigger] free[i] ==> ds[i] == 0 || pending(items, w, i, 0)
}

/// Every committed cell has relaxed each neighbor: the neighbor is within
/// one step, or an entry that would bring it there is still queued.
pub open spec fn relaxed(
    ds: Seq<i32>,
    items: Seq<(i32, i32, i32)>,
    w: int,
    n: int,
) -> bool {
    forall|i: int, j: int|
        0 <= i < n && 0 <= j < n && ds[i] < n && #[trigger] adjacent(w, i, j) ==> ds[j] <= ds[i]
            + 1 || pending(items, w, j, ds[i] + 1)
}

/// The sum of a sequence of recorded distances, the solver's termination
/// measure.
pub open spec fn sum_seq(s: Seq<i32>) -> int
    decreases s.len(),
{
    if s.len() == 0 {
        0
    } else {
        s[0] + sum_seq(s.drop_first())
    }
}

proof fn lemma_sum_update(s: Seq<i32>, i: int, v: i32)
    requires
        0 <= i < s.len(),
    ensures
        sum_seq(s.update(i, v)) == sum_seq(s) - s[i] + v,
    decreases s.len(),
{
    if i == 0 {
        assert(s.update(0, v).drop_first() =~= s.drop_first());
    } else {
        lemma_sum_update(s.drop_first(), i - 1, v);
        assert(s.update(i, v).drop_first() =~= s.drop_first().update(i - 1, v));
    }
}

proof fn lemma_sum_nonneg(s: Seq<i32>)
    requires
        forall|i: int| 0 <= i < s.len() ==> s[i] >= 0,
    ensures
        sum_seq(s) >= 0,
    decreases s.len(),
{
    if s.len() > 0 {
        lemma_sum_nonneg(s.drop_first());
    }
}

/// A pending entry survives a push at the tail.
proof fn lemma_pending_push(
    items: Seq<(i32, i32, i32)>,
    e: (i32, i32, i32),
    w: int,
    i: int,
    b: int,
)
    requires
        pending(items, w, i, b),
    ensures
        pending(items.push(e), w, i, b),
{
    let t = choose|t: int| 0 <= t < items.len() && eidx(#[trigger] items[t], w) == i && items[t].2
        <= b;
    assert(items.push(e)[t] == items[t]);
}

/// A pending entry other than the head survives a pop.
proof fn lemma_pending_drop(items: Seq<(i32, i32, i32)>, w: int, i: int, b: int)
    requires
        pending(items, w, i, b),
        items.len() > 0,
        !(eidx(items[0], w) == i && items[0].2 <= b),
    ensures
        pending(items.drop_first(), w, i, b),
{
    let t = choose|t: int| 0 <= t < items.len() && eidx(#[trigger] items[t], w) == i && items[t].2
        <= b;
    assert(t >= 1);
    assert(items.drop_first()[t - 1] == items[t]);
}

/// A flat index decomposes into its column and row.
pub proof fn lemma_flat_index(w: int, x: int, y: int)
    requires
        0 < w,
        0 <= x < w,
        0 <= y,
    ensures
        (x + w * y) % w == x,
        (x + w * y) / w == y,
        x + w * y == x + y * w,
{
    assert(x + w * y == y * w + x) by (nonlinear_arith);
    lemma_fundamental_div_mod_converse(x + w * y, w, y, x);
}

/// An in-range flat index has an in-range column and row.
pub proof fn lemma_index_rowcol(w: int, h: int, i: int)
    requires
        0 < w,
        0 <= i,
        i < w * h,
    ensures
        0 <= i % w < w,
        0 <= i / w < h,
        i == i % w + w * (i / w),
        i == i % w + (i / w) * w,
{
    assert(w * (i / w) == (i / w) * w) by (nonlinear_arith);
    vstd::arithmetic::div_mod::lemma_mod_bound(i, w);
    lemma_fundamental_div_mod(i, w);
    vstd::arithmetic::div_mod::lemma_div_pos_is_pos(i, w);
    if i / w >= h {
        assert(w * (i / w) >= w * h) by (nonlinear_arith)
            requires
                i / w >= h,
                w > 0;
    }
}

/// A well-formed grid's data length is its width times its height.
pub proof fn lemma_grid_area<T>(g: &Grid<T>)
    requires
        g.wf(),
    ensures
        g.data.len() == g.width * g.spec_height(),
{
    lemma_fundamental_div_mod(g.data.len() as int, g.width as int);
}

/// Each listed neighbor is a valid cell adjacent to the center.
proof fn lemma_neighbors_sound<T>(g: &Grid<T>, c: Coord)
    requires
        g.wf(),
        g.valid(c),
        g.width <= 0x8000,
        g.spec_height() <= 0x8000,
    ensures
        forall|m: int|
            0 <= m < g.valid_neighbors_spec(c).len() ==> g.valid(
                #[trigger] g.valid_neighbors_spec(c)[m],
            ) && adjacent(g.width as int, g.idx(c), g.idx(g.valid_neighbors_spec(c)[m])),
{
    let w = g.width as int;
    let s = g.valid_neighbors_spec(c);
    let t = Coord { x: c.x, y: (c.y - 1) as i32 };
    let b = Coord { x: c.x, y: (c.y + 1) as i32 };
    let l = Coord { x: (c.x - 1) as i32, y: c.y };
    let r = Coord { x: (c.x + 1) as i32, y: c.y };
    lemma_flat_index(w, c.x as int, c.y as int);
    if g.valid(t) {
        lemma_flat_index(w, t.x as int, t.y as int);
    }
    if g.valid(b) {
        lemma_flat_index(w, b.x as int, b.y as int);
    }
    if g.valid(l) {
        lemma_flat_index(w, l.x as int, l.y as int);
    }
    if g.valid(r) {
        lemma_flat_index(w, r.x as int, r.y as int);
    }
    assert(t.x as int == c.x as int && t.y as int == c.y as int - 1);
    assert(b.x as int == c.x as int && b.y as int == c.y as int + 1);
    assert(l.x as int == c.x as int - 1 && l.y as int == c.y as int);
    assert(r.x as int == c.x as int + 1 && r.y as int == c.y as int);
    let na: int = if g.valid(t) { 1 } else { 0 };
    let nb: int = if g.valid(b) { 1 } else { 0 };
    let nc: int = if g.valid(l) { 1 } else { 0 };
    assert forall|m: int| 0 <= m < s.len() implies g.valid(#[trigger] s[m]) && adjacent(
        w,
        g.idx(c),
        g.idx(s[m]),
    ) by {
        if m < na {
            assert(s[m] == t);
        } else if m < na + nb {
            assert(s[m] == b);
        } else if m < na + nb + nc {
            assert(s[m] == l);
        } else {
            assert(s[m] == r);
        }
    }
}

/// Every valid cell adjacent to the center appears in the neighbor list.
proof fn lemma_neighbors_cover<T>(g: &Grid<T>, c: Coord, j: int)
    requires
        g.wf(),
        g.valid(c),
        g.width <= 0x8000,
        g.spec_height() <= 0x8000,
        adjacent(g.width as int, g.idx(c), j),
        0 <= j < g.data.len(),
    ensures
        exists|m: int|
            0 <= m < g.valid_neighbors_spec(c).len() && g.idx(
                #[trigger] g.valid_neighbors_spec(c)[m],
            ) == j,
{
    let w = g.width as int;
    let h = g.spec_height();
    let s = g.valid_neighbors_spec(c);
    lemma_grid_area(g);
    lemma_index_rowcol(w, h, j);
    lemma_flat_index(w, c.x as int, c.y as int);
    let xj = j % w;
    let yj = j / w;
    let t = Coord { x: c.x, y: (c.y - 1) as i32 };
    let b = Coord { x: c.x, y: (c.y + 1) as i32 };
    let l = Coord { x: (c.x - 1) as i32, y: c.y };
    let r = Coord { x: (c.x + 1) as i32, y: c.y };
    assert(t.x as int == c.x as int && t.y as int == c.y as int - 1);
    assert(b.x as int == c.x as int && b.y as int == c.y as int + 1);
    assert(l.x as int == c.x as int - 1 && l.y as int == c.y as int);
    assert(r.x as int == c.x as int + 1 && r.y as int == c.y as int);
    if xj == c.x && yj == c.y - 1 {
        assert(g.valid(t));
        assert(s[0] == t);
        assert(g.idx(t) == j);
    } else if xj == c.x && yj == c.y + 1 {
        assert(g.valid(b));
        let m = if g.valid(t) {
            1int
        } else {
            0int
        };
        assert(s[m] == b);
        assert(g.idx(b) == j);
    } else if yj == c.y && xj == c.x - 1 {
        assert(g.valid(l));
        let m0 = if g.valid(t) {
            1int
        } else {
            0int
        };
        let m = if g.valid(b) {
            m0 + 1
        } else {
            m0
        };
        assert(s[m] == l);
        assert(g.idx(l) == j);
    } else {
        assert(yj == c.y && xj == c.x + 1);
        assert(g.valid(r));
        let m0 = if g.valid(t) {
            1int
        } else {
            0int
        };
        let m1 = if g.valid(b) {
            m0 + 1
        } else {
            m0
        };
        let m = if g.valid(l) {
            m1 + 1
        } else {
            m1
        };
        assert(s[m] == r);
        assert(g.idx(r) == j);
    }
}


/// With the queue drained, the loop invariants force every recorded
/// distance below any achievable step count.
proof fn lemma_drained_complete(
    ds: Seq<i32>,
    items: Seq<(i32, i32, i32)>,
    free: Seq<bool>,
    w: int,
    n: int,
    i: int,
    k: nat,
)
    requires
        free.len() == n,
        items.len() == 0,
        dists_ok(ds, free, w, n),
        free_covered(ds, items, free, w, n),
        relaxed(ds, items, w, n),
        0 <= i < n,
        has_dist_le(free, w, i, k),
    ensures
        ds[i] <= k,
    decreases k,
{
    if free[i] {
        assert(ds[i] == 0 || pending(items, w, i, 0));
        assert(!pending(items, w, i, 0));
    } else {
        assert(k > 0);
        let j = choose|j: int|
            0 <= j < free.len() && #[trigger] adjacent(w, i, j) && has_dist_le(
                free,
                w,
                j,
                (k - 1) as nat,
            );
        if k - 1 >= n {
            assert(ds[i] <= n);
        } else {
            lemma_drained_complete(ds, items, free, w, n, j, (k - 1) as nat);
            assert(adjacent(w, j, i));
            assert(ds[i] <= ds[j] + 1 || pending(items, w, i, ds[j] + 1));
            assert(!pending(items, w, i, ds[j] + 1));
        }
    }
}

/// Compute every cell's exact distance to the free region: a multi-source
/// relaxation over a FIFO queue, seeded with every cell that is neither a
/// wall nor a sink.
#[verifier::loop_isolation(false)]
#[verifier::rlimit(60)]
pub fn solve_distances(walls: &Grid<bool>, sinks: &Grid<bool>) -> (dist: Grid<i32>)
    requires
        walls.wf(),
        sinks.wf(),
        walls.width == sinks.width,
        walls.data@.len() == sinks.data@.len(),
        walls.width <= 0x8000,
        walls.spec_height() <= 0x8000,
    ensures
        dist.wf(),
        dist.width == walls.width,
        dist.data@.len() == walls.data@.len(),
        forall|i: int|
            0 <= i < dist.data@.len() ==> 0 <= #[trigger] dist.data@[i]
                <= walls.data@.len(),
        forall|i: int|
            0 <= i < dist.data@.len() ==> dist.data@[i] as int == graph_dist(
                free_mask(walls.data@, sinks.data@),
                walls.width as int,
                walls.data@.len() as int,
                i,
            ),
{
    let w: usize = walls.width;
    let h: usize = walls.height();
    let n: usize = walls.data.len();
    let ghost freeg: Seq<bool> = free_mask(walls.data@, sinks.data@);
    let ghost wi: int = w as int;
    let ghost hi: int = h as int;
    let ghost ni: int = n as int;
    proof {
        lemma_grid_area(walls);
        assert(ni <= 0x4000_0000) by (nonlinear_arith)
            requires
                ni == wi * hi,
                0 < wi <= 0x8000,
                0 <= hi <= 0x8000;
    }
    let sentinel: i32 = n as i32;
    let mut dist: Grid<i32> = Grid::new_filled(w, h, sentinel);
    let mut q = queue_new();

    // Seed: every free cell enters the frontier at distance 0.
    let mut k: usize = 0;
    while k < n
        invariant
            k <= n,
            dist.wf(),
            dist.width == w,
            dist.data@.len() == ni,
            forall|i: int| 0 <= i < ni ==> #[trigger] dist.data@[i] == sentinel,
            entries_ok(queue_items(q), freeg, wi, hi, ni),
            forall|i: int|
                0 <= i < k && #[trigger] freeg[i] ==> pending(queue_items(q), wi, i, 0),
        decreases n - k,
    {
        let is_w: bool = walls.data[k];
        let is_s: bool = sinks.data[k];
        let ghost items0 = queue_items(q);
        if !is_w && !is_s {
            proof {
                lemma_index_rowcol(wi, hi, k as int);
            }
            let x: usize = k % w;
            let y: usize = k / w;
            queue_push(&mut q, (x as i32, y as i32, 0));
            proof {
                let e = (x as i32, y as i32, 0i32);
                assert(queue_items(q) == items0.push(e));
                assert(eidx(e, wi) == k as int);
                assert(freeg[k as int]);
                assert(has_dist_le(freeg, wi, k as int, 0));
                assert(entry_ok(e, freeg, wi, hi, ni));
                assert forall|t: int| 0 <= t < queue_items(q).len() implies entry_ok(
                    #[trigger] queue_items(q)[t],
                    freeg,
                    wi,
                    hi,
                    ni,
                ) by {
                    if t < items0.len() {
                        assert(queue_items(q)[t] == items0[t]);
                    } else {
                        assert(queue_items(q)[t] == e);
                    }
                }
                assert forall|i: int| 0 <= i < k + 1 && #[trigger] freeg[i] implies pending(
                    queue_items(q),
                    wi,
                    i,
                    0,
                ) by {
                    if i < k {
                        lemma_pending_push(items0, e, wi, i, 0);
                    } else {
                        assert(queue_items(q)[items0.len() as int] == e);
                        assert(eidx(queue_items(q)[items0.len() as int], wi) == i);
                    }
                }
            }
        } else {
            proof {
                assert(!freeg[k as int]);
            }
        }
        k = k + 1;
    }

    // Relax: pop candidates, commit strict improvements, re-push neighbors.
    while !queue_is_empty(&q)
        invariant
            dist.wf(),
            dist.width == w,
            dist.data@.len() == ni,
            dists_ok(dist.data@, freeg, wi, ni),
            entries_ok(queue_items(q), freeg, wi, hi, ni),
            free_covered(dist.data@, queue_items(q), freeg, wi, ni),
            relaxed(dist.data@, queue_items(q), wi, ni),
        decreases sum_seq(dist.data@), queue_items(q).len(),
    {
        let ghost items0 = queue_items(q);
        let ghost ds0 = dist.data@;
        let popped = queue_pop(&mut q);
        let (px, py, pv) = match popped {
            Some(e) => e,
            None => {
                proof {
                    assert(false);
                }
                (0, 0, 0)
            },
        };
        let ghost e = (px, py, pv);
        let ghost items1 = queue_items(q);
        proof {
            assert(e == items0[0]);
            assert(entry_ok(e, freeg, wi, hi, ni));
            assert(items1 == items0.drop_first());
            assert forall|t: int| 0 <= t < items1.len() implies entry_ok(
                #[trigger] items1[t],
                freeg,
                wi,
                hi,
                ni,
            ) by {
                assert(items1[t] == items0[t + 1]);
            }
            lemma_flat_index(wi, px as int, py as int);
            assert((px as int) + wi * (py as int) < ni) by (nonlinear_arith)
                requires
                    0 <= px as int && (px as int) < wi,
                    0 <= py as int && (py as int) < hi,
                    ni == wi * hi;
        }
        let idx0: usize = (px as usize) + w * (py as usize);
        let ghost i0: int = idx0 as int;
        let cur: i32 = dist.data[idx0];
        if cur > pv {
            // Commit the improvement, then push each neighbor.
            let coord = Coord::new(px, py);
            dist.set(coord, pv);
            let ghost ds1 = dist.data@;
            proof {
                assert(ds1 == ds0.update(i0, pv));
                lemma_sum_update(ds0, i0, pv);
                lemma_sum_nonneg(ds1);
                assert(has_dist_le(freeg, wi, i0, pv as nat));
                assert(dists_ok(ds1, freeg, wi, ni));
                assert forall|i: int| 0 <= i < ni && #[trigger] freeg[i] implies ds1[i] == 0
                    || pending(items1, wi, i, 0) by {
                    if ds0[i] == 0 {
                    } else {
                        assert(pending(items0, wi, i, 0));
                        if eidx(items0[0], wi) == i && items0[0].2 <= 0 {
                            assert(i == i0 && pv == 0);
                        } else {
                            lemma_pending_drop(items0, wi, i, 0);
                        }
                    }
                }
                assert forall|i: int, j: int|
                    0 <= i < ni && 0 <= j < ni && ds1[i] < ni && #[trigger] adjacent(wi, i, j)
                        && i != i0 implies ds1[j] <= ds1[i] + 1 || pending(
                    items1,
                    wi,
                    j,
                    ds1[i] + 1,
                ) by {
                    assert(ds0[i] == ds1[i]);
                    if !(ds1[j] <= ds1[i] + 1) {
                        if ds0[j] <= ds0[i] + 1 {
                            assert(ds1[j] <= ds0[j]);
                        } else {
                            assert(pending(items0, wi, j, ds0[i] + 1));
                            if eidx(items0[0], wi) == j && items0[0].2 <= ds0[i] + 1 {
                                assert(j == i0);
                                assert(ds1[j] == pv);
                            } else {
                                lemma_pending_drop(items0, wi, j, ds0[i] + 1);
                            }
                        }
                    }
                }
            }
            let neigh: Vec<Coord> = dist.valid_neighbors(coord);
            proof {
                lemma_neighbors_sound(&dist, coord);
            }
            let mut m: usize = 0;
            while m < neigh.len()
                invariant
                    m <= neigh.len(),
                    neigh@ == dist.valid_neighbors_spec(coord),
                    dist.data@ == ds1,
                    dist.width == w,
                    entries_ok(queue_items(q), freeg, wi, hi, ni),
                    free_covered(dist.data@, queue_items(q), freeg, wi, ni),
                    forall|i: int, j: int|
                        0 <= i < ni && 0 <= j < ni && ds1[i] < ni && #[trigger] adjacent(wi, i, j)
                            && i != i0 ==> ds1[j] <= ds1[i] + 1 || pending(
                            queue_items(q),
                            wi,
                            j,
                            ds1[i] + 1,
                        ),
                    forall|t: int|
                        0 <= t < m ==> pending(
                            queue_items(q),
                            wi,
                            (#[trigger] neigh@[t]).x + wi * neigh@[t].y,
                            pv + 1,
                        ),
                decreases neigh.len() - m,
            {
                let c: Coord = neigh[m];
                let ghost itemsp = queue_items(q);
                proof {
                    assert(dist.valid(c) && adjacent(wi, dist.idx(coord), dist.idx(c)));
                    lemma_flat_index(wi, c.x as int, c.y as int);
                    assert(pv + 1 <= ni);
                }
                queue_push(&mut q, (c.x, c.y, pv + 1));
                proof {
                    let en = (c.x, c.y, (pv + 1) as i32);
                    assert(queue_items(q) == itemsp.push(en));
                    let jn: int = c.x as int + wi * (c.y as int);
                    assert(eidx(en, wi) == jn);
                    assert(adjacent(wi, i0, jn));
                    assert(has_dist_le(freeg, wi, jn, (pv + 1) as nat)) by {
                        assert(adjacent(wi, jn, i0));
                        assert(0 <= jn < ni) by (nonlinear_arith)
                            requires
                                0 <= c.x as int && (c.x as int) < wi,
                                0 <= c.y as int && (c.y as int) < hi,
                                ni == wi * hi,
                                jn == c.x as int + wi * (c.y as int);
                        assert(has_dist_le(freeg, wi, i0, pv as nat));
                    }
                    assert(entry_ok(en, freeg, wi, hi, ni));
                    assert forall|t: int| 0 <= t < queue_items(q).len() implies entry_ok(
                        #[trigger] queue_items(q)[t],
                        freeg,
                        wi,
                        hi,
                        ni,
                    ) by {
                        if t < itemsp.len() {
                            assert(queue_items(q)[t] == itemsp[t]);
                        } else {
                            assert(queue_items(q)[t] == en);
                        }
                    }
                    assert forall|i: int| 0 <= i < ni && #[trigger] freeg[i] implies ds1[i] == 0
                        || pending(queue_items(q), wi, i, 0) by {
                        if ds1[i] != 0 {
                            lemma_pending_push(itemsp, en, wi, i, 0);
                        }
                    }
                    assert forall|i: int, j: int|
                        0 <= i < ni && 0 <= j < ni && ds1[i] < ni && #[trigger] adjacent(wi, i, j)
                            && i != i0 implies ds1[j] <= ds1[i] + 1 || pending(
                        queue_items(q),
                        wi,
                        j,
                        ds1[i] + 1,
                    ) by {
                        if !(ds1[j] <= ds1[i] + 1) {
                            lemma_pending_push(itemsp, en, wi, j, ds1[i] + 1);
                        }
                    }
                    assert forall|t: int| 0 <= t < m + 1 implies pending(
                        queue_items(q),
                        wi,
                        (#[trigger] neigh@[t]).x + wi * neigh@[t].y,
                        pv + 1,
                    ) by {
                        if t < m {
                            lemma_pending_push(itemsp, en, wi, neigh@[t].x + wi * neigh@[t].y, pv + 1);
                        } else {
                            assert(queue_items(q)[itemsp.len() as int] == en);
                        }
                    }
                }
                m = m + 1;
            }
            proof {
                // The neighbor pushes restore relaxation at the committed cell.
                assert forall|i: int, j: int|
                    0 <= i < ni && 0 <= j < ni && ds1[i] < ni && #[trigger] adjacent(wi, i, j)
                        implies ds1[j] <= ds1[i] + 1 || pending(queue_items(q), wi, j, ds1[i] + 1)
                    by {
                    if i == i0 {
                        lemma_neighbors_cover(&dist, coord, j);
                        let t = choose|t: int|
                            0 <= t < dist.valid_neighbors_spec(coord).len() && dist.idx(
                                #[trigger] dist.valid_neighbors_spec(coord)[t],
                            ) == j;
                        let cc = neigh@[t];
                        assert(pending(queue_items(q), wi, cc.x + wi * cc.y, pv + 1));
                        lemma_flat_index(wi, cc.x as int, cc.y as int);
                        assert(cc.x + wi * cc.y == j);
                        assert(ds1[i] == pv);
                    }
                }
                lemma_sum_nonneg(dist.data@);
            }
        } else {
            // The candidate does not improve the recorded minimum: drop it.
            proof {
                assert forall|i: int| 0 <= i < ni && #[trigger] freeg[i] implies ds0[i] == 0
                    || pending(items1, wi, i, 0) by {
                    if ds0[i] != 0 {
                        assert(pending(items0, wi, i, 0));
                        if eidx(items0[0], wi) == i && items0[0].2 <= 0 {
                            assert(i == i0);
                            assert(cur <= pv && pv <= 0);
                            assert(ds0[i0] == 0);
                        } else {
                            lemma_pending_drop(items0, wi, i, 0);
                        }
                    }
                }
                assert forall|i: int, j: int|
                    0 <= i < ni && 0 <= j < ni && ds0[i] < ni && #[trigger] adjacent(wi, i, j)
                        implies ds0[j] <= ds0[i] + 1 || pending(items1, wi, j, ds0[i] + 1) by {
                    if !(ds0[j] <= ds0[i] + 1) {
                        assert(pending(items0, wi, j, ds0[i] + 1));
                        if eidx(items0[0], wi) == j && items0[0].2 <= ds0[i] + 1 {
                            assert(j == i0);
                            assert(ds0[j] <= cur <= pv);
                            assert(false);
                        } else {
                            lemma_pending_drop(items0, wi, j, ds0[i] + 1);
                        }
                    }
                }
                lemma_sum_nonneg(dist.data@);
            }
        }
    }
    proof {
        assert forall|i: int| 0 <= i < ni implies dist.data@[i] as int == graph_dist(
            freeg,
            wi,
            ni,
            i,
        ) by {
            assert forall|k2: nat| #[trigger] has_dist_le(freeg, wi, i, k2) implies dist.data@[i]
                <= k2 by {
                lemma_drained_complete(dist.data@, queue_items(q), freeg, wi, ni, i, k2);
            }
            assert(dist_ok(freeg, wi, ni, i, dist.data@[i] as int));
            lemma_dist_ok_unique(freeg, wi, ni, i, dist.data@[i] as int);
        }
    }
    dist
}

} // verus!
