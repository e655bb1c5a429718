//! Walking the chunks of a Zarr array that intersect a query's index bounds.

use vstd::prelude::*;
use vstd::arithmetic::div_mod::{lemma_fundamental_div_mod_converse, lemma_fundamental_div_mod, lemma_breakdown, lemma_div_is_ordered};
use vstd::arithmetic::mul::lemma_mul_is_commutative;
use vstd::arithmetic::mul::lemma_mul_inequality;

verus! {

/// Chunk size used for a dimension: a zero chunk size counts as one.
pub open spec fn chunk_size(c: u64) -> int {
    if c == 0 { 1 } else { c as int }
}

/// Chunk-grid index range covered by element bounds `[lo, hi]` with chunk size `c`;
/// an empty element range (`lo > hi`) collapses to the chunk holding `lo`.
pub open spec fn grid_lo(lo: u64, c: u64) -> u64 {
    (lo as int / chunk_size(c)) as u64
}

pub open spec fn grid_hi(lo: u64, hi: u64, c: u64) -> u64 {
    if lo <= hi { (hi as int / chunk_size(c)) as u64 } else { grid_lo(lo, c) }
}

/// Number of chunks along dimension `i` of the grid range `[mins, maxs]`.
pub open spec fn dim_len(mins: Seq<u64>, maxs: Seq<u64>, i: int) -> int {
    maxs[i] - mins[i] + 1
}

/// Every dimension of the range `[mins, maxs]` is non-empty.
pub open spec fn range_wf(mins: Seq<u64>, maxs: Seq<u64>) -> bool {
    &&& mins.len() == maxs.len()
    &&& forall|i: int| 0 <= i < mins.len() ==> mins[i] <= #[trigger] maxs[i]
}

/// The number of chunks along every dimension fits in a `u64`.
pub open spec fn lens_fit(mins: Seq<u64>, maxs: Seq<u64>) -> bool {
    forall|i: int| 0 <= i < mins.len() ==> #[trigger] maxs[i] - mins[i] < u64::MAX
}

/// Number of chunks in the first `n` dimensions of the range.
pub open spec fn total(mins: Seq<u64>, maxs: Seq<u64>, n: nat) -> int
    decreases n,
{
    if n == 0 {
        1
    } else {
        total(mins, maxs, (n - 1) as nat) * dim_len(mins, maxs, n - 1)
    }
}

/// Position of the `k`-th chunk (row-major: the last dimension varies fastest)
/// in the first `n` dimensions of the range.
pub open spec fn chunk_pos(mins: Seq<u64>, maxs: Seq<u64>, k: nat, n: nat) -> Seq<u64>
    decreases n,
{
    if n == 0 {
        Seq::empty()
    } else {
        let l = dim_len(mins, maxs, n - 1);
        chunk_pos(mins, maxs, ((k as int) / l) as nat, (n - 1) as nat).push(
            (mins[n - 1] + (k as int) % l) as u64,
        )
    }
}

/// Odometer step over the first `n` dimensions of `cur`: advance the last
/// dimension not yet at its maximum, resetting the ones after it to their
/// minimum; `None` once every dimension is at its maximum.
pub open spec fn advance(mins: Seq<u64>, maxs: Seq<u64>, cur: Seq<u64>, n: nat) -> Option<Seq<u64>>
    decreases n,
{
    if n == 0 {
        None
    } else if cur[n - 1] < maxs[n - 1] {
        Some(cur.update(n - 1, (cur[n - 1] + 1) as u64))
    } else {
        advance(mins, maxs, cur.update(n - 1, mins[n - 1]), (n - 1) as nat)
    }
}

/// A chunk position over the first `n` dimensions has `n` coordinates.
pub proof fn lemma_chunk_pos_len(mins: Seq<u64>, maxs: Seq<u64>, k: nat, n: nat)
    ensures
        chunk_pos(mins, maxs, k, n).len() == n,
    decreases n,
{
    if n > 0 {
        let l = dim_len(mins, maxs, n - 1);
        lemma_chunk_pos_len(mins, maxs, ((k as int) / l) as nat, (n - 1) as nat);
    }
}

proof fn lemma_total_pos(mins: Seq<u64>, maxs: Seq<u64>, n: nat)
    requires
        n <= mins.len(),
        range_wf(mins, maxs),
    ensures
        total(mins, maxs, n) >= 1,
    decreases n,
{
    if n > 0 {
        lemma_total_pos(mins, maxs, (n - 1) as nat);
        lemma_mul_inequality(1, total(mins, maxs, (n - 1) as nat), dim_len(mins, maxs, n - 1));
    }
}

/// Stepping the odometer from the `k`-th chunk position gives the `(k+1)`-th,
/// or ends the walk when `k` was the last chunk.
pub proof fn lemma_advance_is_successor(
    mins: Seq<u64>,
    maxs: Seq<u64>,
    cur: Seq<u64>,
    k: nat,
    n: nat,
)
    requires
        range_wf(mins, maxs),
        lens_fit(mins, maxs),
        n <= mins.len(),
        n <= cur.len(),
        k < total(mins, maxs, n),
        cur.subrange(0, n as int) == chunk_pos(mins, maxs, k, n),
    ensures
        advance(mins, maxs, cur, n) == if k + 1 < total(mins, maxs, n) {
            Some(chunk_pos(mins, maxs, k + 1, n) + cur.subrange(n as int, cur.len() as int))
        } else {
            None::<Seq<u64>>
        },
    decreases n,
{
    if n == 0 {
        assert(total(mins, maxs, 0) == 1);
    } else {
        let l = dim_len(mins, maxs, n - 1);
        let q = ((k as int) / l) as nat;
        let r = ((k as int) % l) as nat;
        lemma_fundamental_div_mod(k as int, l);
        assert(k == q * l + r) by (nonlinear_arith)
            requires
                k == l * (k as int / l) + (k as int % l),
                q == k as int / l,
                r == k as int % l,
        ;
        let t1 = total(mins, maxs, (n - 1) as nat);
        lemma_total_pos(mins, maxs, (n - 1) as nat);
        assert(q < t1) by {
            if q >= t1 {
                lemma_mul_inequality(t1, q as int, l);
                assert(k >= q * l);
            }
        }
        assert(cur[n - 1] == chunk_pos(mins, maxs, k, n)[n - 1]);
        assert(cur.subrange(0, n - 1) == chunk_pos(mins, maxs, q, (n - 1) as nat)) by {
            lemma_chunk_pos_len(mins, maxs, q, (n - 1) as nat);
            let cp = chunk_pos(mins, maxs, k, n);
            assert(cp == chunk_pos(mins, maxs, q, (n - 1) as nat).push((mins[n - 1] + r) as u64));
            assert(cp.subrange(0, n - 1) =~= chunk_pos(mins, maxs, q, (n - 1) as nat));
            assert(cur.subrange(0, n - 1) =~= cur.subrange(0, n as int).subrange(0, n - 1));
        }
        if r < l - 1 {
            lemma_fundamental_div_mod_converse((k + 1) as int, l, q as int, (r + 1) as int);
            assert(cur[n - 1] < maxs[n - 1]);
            assert(k + 1 < total(mins, maxs, n)) by {
                lemma_mul_inequality(q as int + 1, t1, l);
                assert(k + 1 < (q + 1) * l) by (nonlinear_arith)
                    requires
                        k == q * l + r,
                        r < l - 1,
                ;
            }
            let next = cur.update(n - 1, (cur[n - 1] + 1) as u64);
            assert(next =~= chunk_pos(mins, maxs, k + 1, n) + cur.subrange(n as int, cur.len() as int));
        } else {
            assert((k + 1) as int == (q as int + 1) * l + 0) by (nonlinear_arith)
                requires
                    k == q * l + r,
                    r == l - 1,
            ;
            lemma_fundamental_div_mod_converse((k + 1) as int, l, q as int + 1, 0);
            assert(cur[n - 1] == maxs[n - 1]);
            let c2 = cur.update(n - 1, mins[n - 1]);
            assert(c2.subrange(0, n - 1) =~= cur.subrange(0, n - 1));
            lemma_advance_is_successor(mins, maxs, c2, q, (n - 1) as nat);
            assert(k + 1 == (q + 1) * l);
            if q + 1 < t1 {
                assert(k + 1 < total(mins, maxs, n)) by {
                    lemma_mul_inequality(q as int + 1, t1 - 1, l);
                    assert((t1 - 1) * l == t1 * l - l) by (nonlinear_arith);
                }
                assert(c2.subrange(n - 1, c2.len() as int) =~= seq![mins[n - 1]] + cur.subrange(
                    n as int,
                    cur.len() as int,
                ));
                assert(chunk_pos(mins, maxs, q + 1, (n - 1) as nat) + c2.subrange(
                    n - 1,
                    c2.len() as int,
                ) =~= chunk_pos(mins, maxs, k + 1, n) + cur.subrange(n as int, cur.len() as int));
            } else {
                assert(q + 1 == t1);
                assert(k + 1 == total(mins, maxs, n));
            }
        }
    }
}

/// The first chunk position is the range's minimum corner.
pub proof fn lemma_first_chunk_is_min(mins: Seq<u64>, maxs: Seq<u64>, n: nat)
    requires
        range_wf(mins, maxs),
        n <= mins.len(),
    ensures
        chunk_pos(mins, maxs, 0, n) == mins.subrange(0, n as int),
    decreases n,
{
    if n > 0 {
        lemma_first_chunk_is_min(mins, maxs, (n - 1) as nat);
        let l = dim_len(mins, maxs, n - 1);
        assert(0int / l == 0 && 0int % l == 0);
        assert(mins.subrange(0, n as int) =~= mins.subrange(0, n - 1).push(mins[n - 1]));
    }
}

} // verus!

verus! {

/// Iterator over the chunk-grid positions that intersect inclusive element
/// bounds, in row-major order (the last dimension varies fastest).
pub struct GridIterator {
    current: Option<Vec<u64>>,
    bounds_min: Vec<u64>,
    bounds_max: Vec<u64>,
}

impl GridIterator {
    /// First chunk-grid position of the range (per dimension).
    pub closed spec fn grid_min(&self) -> Seq<u64> {
        self.bounds_min@
    }

    /// Last chunk-grid position of the range (per dimension).
    pub closed spec fn grid_max(&self) -> Seq<u64> {
        self.bounds_max@
    }

    /// Position the next call of `next` yields, if any.
    pub closed spec fn pending(&self) -> Option<Seq<u64>> {
        match self.current {
            Some(c) => Some(c@),
            None => None,
        }
    }

    /// The range is well formed and the pending position lies inside it.
    pub closed spec fn wf(&self) -> bool {
        &&& range_wf(self.bounds_min@, self.bounds_max@)
        &&& match self.current {
            Some(c) => c@.len() == self.bounds_min@.len(),
            None => true,
        }
    }

    /// Iterate over the chunks of a grid with chunk sizes `chunk_shape` that hold
    /// elements within `[bounds_min, bounds_max]` (inclusive, per dimension).
    pub fn new(bounds_min: &[u64], bounds_max: &[u64], _shape: &[u64], chunk_shape: &[u64]) -> (r: Self)
        requires
            bounds_max@.len() >= bounds_min@.len(),
            chunk_shape@.len() >= bounds_min@.len(),
        ensures
            r.wf(),
            r.grid_min().len() == bounds_min@.len(),
            r.grid_max().len() == bounds_min@.len(),
            range_wf(r.grid_min(), r.grid_max()),
            forall|i: int| 0 <= i < bounds_min@.len() ==> r.grid_min()[i] == grid_lo(
                #[trigger] bounds_min@[i],
                chunk_shape@[i],
            ),
            forall|i: int| 0 <= i < bounds_min@.len() ==> r.grid_max()[i] == grid_hi(
                #[trigger] bounds_min@[i],
                bounds_max@[i],
                chunk_shape@[i],
            ),
            r.pending() == Some(r.grid_min()),
    {
        let rank = bounds_min.len();
        let mut min: Vec<u64> = Vec::new();
        let mut max: Vec<u64> = Vec::new();
        let mut i: usize = 0;
        while i < rank
            invariant
                rank == bounds_min@.len(),
                bounds_max@.len() >= rank,
                chunk_shape@.len() >= rank,
                i <= rank,
                min@.len() == i,
                max@.len() == i,
                forall|j: int| 0 <= j < i ==> min@[j] == grid_lo(#[trigger] bounds_min@[j], chunk_shape@[j]),
                forall|j: int|
                    0 <= j < i ==> max@[j] == grid_hi(#[trigger] bounds_min@[j], bounds_max@[j], chunk_shape@[j]),
                range_wf(min@, max@),
            decreases rank - i,
        {
            let cs: u64 = if chunk_shape[i] == 0 { 1 } else { chunk_shape[i] };
            let lo = bounds_min[i] / cs;
            let hi = if bounds_min[i] <= bounds_max[i] { bounds_max[i] / cs } else { lo };
            proof {
                if bounds_min[i as int] <= bounds_max[i as int] {
                    vstd::arithmetic::div_mod::lemma_div_is_ordered(
                        bounds_min[i as int] as int,
                        bounds_max[i as int] as int,
                        cs as int,
                    );
                }
            }
            min.push(lo);
            max.push(hi);
            i = i + 1;
        }
        let first = min.clone();
        assert(first@ == min@);
        GridIterator { current: Some(first), bounds_min: min, bounds_max: max }
    }

    /// Position of the `chunk_idx`-th chunk of the range, in iteration order.
    pub fn get_chunk_pos(&self, chunk_idx: u64) -> (r: Vec<u64>)
        requires
            self.wf(),
            lens_fit(self.grid_min(), self.grid_max()),
        ensures
            r@ == chunk_pos(self.grid_min(), self.grid_max(), chunk_idx as nat, self.grid_min().len()),
    {
        let rank = self.bounds_min.len();
        let mut pos: Vec<u64> = Vec::new();
        let mut j: usize = 0;
        while j < rank
            invariant
                pos@.len() == j,
                j <= rank,
            decreases rank - j,
        {
            pos.push(0);
            j = j + 1;
        }
        let ghost mins = self.bounds_min@;
        let ghost maxs = self.bounds_max@;
        let mut current_idx = chunk_idx;
        let mut i: usize = rank;
        while i > 0
            invariant
                rank == mins.len(),
                mins == self.bounds_min@,
                maxs == self.bounds_max@,
                range_wf(mins, maxs),
                lens_fit(mins, maxs),
                i <= rank,
                pos@.len() == rank,
                chunk_pos(mins, maxs, chunk_idx as nat, rank as nat) == chunk_pos(
                    mins,
                    maxs,
                    current_idx as nat,
                    i as nat,
                ) + pos@.subrange(i as int, rank as int),
            decreases i,
        {
            let d = i - 1;
            let dim_len = self.bounds_max[d] - self.bounds_min[d] + 1;
            let v = self.bounds_min[d] + current_idx % dim_len;
            let ghost old_pos = pos@;
            let ghost old_idx = current_idx;
            pos.set(d, v);
            current_idx = current_idx / dim_len;
            proof {
                assert(pos@.subrange(d as int, rank as int) =~= seq![v] + old_pos.subrange(
                    i as int,
                    rank as int,
                ));
                assert(chunk_pos(mins, maxs, old_idx as nat, i as nat) == chunk_pos(
                    mins,
                    maxs,
                    current_idx as nat,
                    d as nat,
                ).push(v));
                assert(chunk_pos(mins, maxs, current_idx as nat, d as nat).push(v) + old_pos.subrange(
                    i as int,
                    rank as int,
                ) =~= chunk_pos(mins, maxs, current_idx as nat, d as nat) + pos@.subrange(
                    d as int,
                    rank as int,
                ));
            }
            i = d;
        }
        assert(chunk_pos(mins, maxs, current_idx as nat, 0) =~= Seq::<u64>::empty());
        assert(pos@.subrange(0, rank as int) =~= pos@);
        pos
    }

    /// Yield the pending chunk position and advance to the next one.
    pub fn next(&mut self) -> (r: Option<Vec<u64>>)
        requires
            old(self).wf(),
        ensures
            final(self).wf(),
            final(self).grid_min() == old(self).grid_min(),
            final(self).grid_max() == old(self).grid_max(),
            match r {
                Some(v) => old(self).pending() == Some(v@),
                None => old(self).pending() is None,
            },
            final(self).pending() == match old(self).pending() {
                Some(c) => advance(old(self).grid_min(), old(self).grid_max(), c, c.len()),
                None => None,
            },
    {
        let current = match self.current.take() {
            Some(c) => c,
            None => return None,
        };
        let mut next_grid = current.clone();
        assert(next_grid@ == current@);
        let rank = next_grid.len();
        let advanced = step_odometer(&mut next_grid, &self.bounds_min, &self.bounds_max, rank);
        if advanced {
            self.current = Some(next_grid);
        }
        Some(current)
    }
}

/// One odometer step over the first `n` dimensions of `cur`; `false` when the
/// walk is exhausted.
fn step_odometer(cur: &mut Vec<u64>, mins: &Vec<u64>, maxs: &Vec<u64>, n: usize) -> (r: bool)
    requires
        n <= old(cur)@.len(),
        n <= mins@.len(),
        range_wf(mins@, maxs@),
    ensures
        r == advance(mins@, maxs@, old(cur)@, n as nat) is Some,
        r ==> Some(final(cur)@) == advance(mins@, maxs@, old(cur)@, n as nat),
        final(cur)@.len() == old(cur)@.len(),
    decreases n,
{
    if n == 0 {
        return false;
    }
    let d = n - 1;
    if cur[d] < maxs[d] {
        let v = cur[d] + 1;
        cur.set(d, v);
        true
    } else {
        cur.set(d, mins[d]);
        step_odometer(cur, mins, maxs, d)
    }
}

} // verus!

verus! {

/// Pending position after `k` steps of a walk started at the minimum corner.
pub open spec fn walk(mins: Seq<u64>, maxs: Seq<u64>, k: nat) -> Option<Seq<u64>>
    decreases k,
{
    if k == 0 {
        Some(mins)
    } else {
        match walk(mins, maxs, (k - 1) as nat) {
            Some(c) => advance(mins, maxs, c, c.len()),
            None => None,
        }
    }
}

/// The walk of `GridIterator::next` visits exactly the positions given by
/// `get_chunk_pos`: after `k` steps it is at the `k`-th chunk, for every chunk
/// of the range, and after the last chunk it is exhausted.
pub proof fn lemma_walk_is_chunk_pos(mins: Seq<u64>, maxs: Seq<u64>, k: nat)
    requires
        range_wf(mins, maxs),
        lens_fit(mins, maxs),
        k <= total(mins, maxs, mins.len()),
    ensures
        k < total(mins, maxs, mins.len()) ==> walk(mins, maxs, k) == Some(
            chunk_pos(mins, maxs, k, mins.len()),
        ),
        k == total(mins, maxs, mins.len()) ==> walk(mins, maxs, k) is None,
    decreases k,
{
    let n = mins.len();
    if k == 0 {
        lemma_first_chunk_is_min(mins, maxs, n);
        assert(mins.subrange(0, n as int) =~= mins);
        lemma_total_pos(mins, maxs, n);
    } else {
        lemma_walk_is_chunk_pos(mins, maxs, (k - 1) as nat);
        let c = chunk_pos(mins, maxs, (k - 1) as nat, n);
        lemma_chunk_pos_len(mins, maxs, (k - 1) as nat, n);
        assert(c.subrange(0, n as int) =~= c);
        lemma_advance_is_successor(mins, maxs, c, (k - 1) as nat, n);
        assert(c.subrange(n as int, c.len() as int) =~= Seq::<u64>::empty());
        assert(chunk_pos(mins, maxs, k, n) + Seq::<u64>::empty() =~= chunk_pos(mins, maxs, k, n));
    }
}

/// `a` comes before `b` in lexicographic order: they agree before some
/// dimension, where `a` is smaller.
pub open spec fn lex_lt(a: Seq<u64>, b: Seq<u64>) -> bool {
    exists|i: int| 0 <= i < a.len() && i < b.len() && a.subrange(0, i) == b.subrange(0, i) && #[trigger] a[i] < b[i]
}

/// `p` is a position of the box `[mins, maxs]`.
pub open spec fn in_box(p: Seq<u64>, mins: Seq<u64>, maxs: Seq<u64>) -> bool {
    &&& p.len() == mins.len()
    &&& forall|d: int| 0 <= d < p.len() ==> mins[d] <= #[trigger] p[d] <= maxs[d]
}

/// Row-major index of position `p` over the first `n` dimensions of the box.
pub open spec fn pos_index(mins: Seq<u64>, maxs: Seq<u64>, p: Seq<u64>, n: nat) -> int
    decreases n,
{
    if n == 0 {
        0
    } else {
        pos_index(mins, maxs, p, (n - 1) as nat) * dim_len(mins, maxs, n - 1) + (p[n - 1] - mins[n - 1])
    }
}

proof fn lemma_chunk_pos_in_box(mins: Seq<u64>, maxs: Seq<u64>, k: nat, n: nat)
    requires
        range_wf(mins, maxs),
        n <= mins.len(),
    ensures
        chunk_pos(mins, maxs, k, n).len() == n,
        forall|d: int| 0 <= d < n ==> mins[d] <= #[trigger] chunk_pos(mins, maxs, k, n)[d] <= maxs[d],
    decreases n,
{
    lemma_chunk_pos_len(mins, maxs, k, n);
    if n > 0 {
        let l = dim_len(mins, maxs, n - 1);
        let q = ((k as int) / l) as nat;
        lemma_chunk_pos_in_box(mins, maxs, q, (n - 1) as nat);
        let c = chunk_pos(mins, maxs, k, n);
        assert(c == chunk_pos(mins, maxs, q, (n - 1) as nat).push((mins[n - 1] + (k as int) % l) as u64));
        assert forall|d: int| 0 <= d < n implies mins[d] <= #[trigger] c[d] <= maxs[d] by {
            if d < n - 1 {
                assert(c[d] == chunk_pos(mins, maxs, q, (n - 1) as nat)[d]);
            }
        }
    }
}

proof fn lemma_chunk_pos_mod(mins: Seq<u64>, maxs: Seq<u64>, k: nat, n: nat)
    requires
        range_wf(mins, maxs),
        n <= mins.len(),
    ensures
        total(mins, maxs, n) >= 1,
        chunk_pos(mins, maxs, k, n) == chunk_pos(mins, maxs, (k as int % total(mins, maxs, n)) as nat, n),
    decreases n,
{
    lemma_total_pos(mins, maxs, n);
    if n > 0 {
        let l = dim_len(mins, maxs, n - 1);
        let t = total(mins, maxs, (n - 1) as nat);
        lemma_total_pos(mins, maxs, (n - 1) as nat);
        let q = (k as int) / l;
        let r = (k as int) % l;
        lemma_breakdown(k as int, l, t);
        lemma_mul_is_commutative(l, t);
        let k2 = (k as int) % (l * t);
        let q2 = q % t;
        assert(k2 == q2 * l + r) by {
            lemma_mul_is_commutative(l, q2);
        }
        lemma_fundamental_div_mod_converse(k2, l, q2, r);
        lemma_chunk_pos_mod(mins, maxs, q as nat, (n - 1) as nat);
        assert(total(mins, maxs, n) == l * t);
    }
}

proof fn lemma_chunk_pos_lex(mins: Seq<u64>, maxs: Seq<u64>, k: nat, k2: nat, n: nat)
    requires
        range_wf(mins, maxs),
        n <= mins.len(),
        k < k2 < total(mins, maxs, n),
    ensures
        lex_lt(chunk_pos(mins, maxs, k, n), chunk_pos(mins, maxs, k2, n)),
    decreases n,
{
    if n == 0 {
        assert(total(mins, maxs, 0) == 1);
    } else {
        let l = dim_len(mins, maxs, n - 1);
        let t = total(mins, maxs, (n - 1) as nat);
        lemma_total_pos(mins, maxs, (n - 1) as nat);
        let q = (k as int) / l;
        let r = (k as int) % l;
        let q2 = (k2 as int) / l;
        let r2 = (k2 as int) % l;
        lemma_fundamental_div_mod(k as int, l);
        lemma_fundamental_div_mod(k2 as int, l);
        lemma_div_is_ordered(k as int, k2 as int, l);
        assert(q2 < t) by {
            if q2 >= t {
                lemma_mul_inequality(t, q2, l);
                assert(k2 >= l * q2) by (nonlinear_arith)
                    requires
                        k2 == l * q2 + r2,
                        0 <= r2,
                ;
                lemma_mul_is_commutative(l, q2);
            }
        }
        lemma_chunk_pos_in_box(mins, maxs, k, n);
        lemma_chunk_pos_in_box(mins, maxs, k2, n);
        lemma_chunk_pos_len(mins, maxs, q as nat, (n - 1) as nat);
        lemma_chunk_pos_len(mins, maxs, q2 as nat, (n - 1) as nat);
        let a = chunk_pos(mins, maxs, q as nat, (n - 1) as nat);
        let b = chunk_pos(mins, maxs, q2 as nat, (n - 1) as nat);
        let ca = chunk_pos(mins, maxs, k, n);
        let cb = chunk_pos(mins, maxs, k2, n);
        assert(ca == a.push((mins[n - 1] + r) as u64));
        assert(cb == b.push((mins[n - 1] + r2) as u64));
        if q < q2 {
            lemma_chunk_pos_lex(mins, maxs, q as nat, q2 as nat, (n - 1) as nat);
            let i = choose|i: int| 0 <= i < a.len() && i < b.len() && a.subrange(0, i) == b.subrange(0, i) && #[trigger] a[i] < b[i];
            assert(ca.subrange(0, i) =~= a.subrange(0, i));
            assert(cb.subrange(0, i) =~= b.subrange(0, i));
            assert(ca[i] == a[i] && cb[i] == b[i]);
        } else {
            assert(q == q2);
            assert(r < r2) by (nonlinear_arith)
                requires
                    k == l * q + r,
                    k2 == l * q2 + r2,
                    q == q2,
                    k < k2,
            ;
            assert(ca.subrange(0, n - 1) =~= a);
            assert(cb.subrange(0, n - 1) =~= b);
            assert(ca[n - 1] < cb[n - 1]);
        }
    }
}

proof fn lemma_pos_index(mins: Seq<u64>, maxs: Seq<u64>, p: Seq<u64>, n: nat)
    requires
        range_wf(mins, maxs),
        n <= mins.len(),
        n <= p.len(),
        forall|d: int| 0 <= d < n ==> mins[d] <= #[trigger] p[d] <= maxs[d],
    ensures
        0 <= pos_index(mins, maxs, p, n) < total(mins, maxs, n),
        chunk_pos(mins, maxs, pos_index(mins, maxs, p, n) as nat, n) == p.subrange(0, n as int),
    decreases n,
{
    if n > 0 {
        let l = dim_len(mins, maxs, n - 1);
        let t = total(mins, maxs, (n - 1) as nat);
        lemma_pos_index(mins, maxs, p, (n - 1) as nat);
        let q = pos_index(mins, maxs, p, (n - 1) as nat);
        let r = p[n - 1] - mins[n - 1];
        assert(0 <= r < l);
        let k = q * l + r;
        assert(0 <= k < t * l) by (nonlinear_arith)
            requires
                0 <= q < t,
                0 <= r < l,
                k == q * l + r,
        ;
        lemma_fundamental_div_mod_converse(k, l, q, r);
        assert(chunk_pos(mins, maxs, k as nat, n) =~= p.subrange(0, n as int));
    }
}

/// The walk of `GridIterator::next` yields its positions in strictly
/// increasing lexicographic order (the last dimension varies fastest), so no
/// position twice.
pub proof fn lemma_walk_in_order(mins: Seq<u64>, maxs: Seq<u64>, k: nat, k2: nat)
    requires
        range_wf(mins, maxs),
        lens_fit(mins, maxs),
        k < k2 < total(mins, maxs, mins.len()),
    ensures
        walk(mins, maxs, k) is Some,
        walk(mins, maxs, k2) is Some,
        lex_lt(walk(mins, maxs, k).unwrap(), walk(mins, maxs, k2).unwrap()),
        walk(mins, maxs, k).unwrap() != walk(mins, maxs, k2).unwrap(),
{
    lemma_walk_is_chunk_pos(mins, maxs, k);
    lemma_walk_is_chunk_pos(mins, maxs, k2);
    lemma_chunk_pos_lex(mins, maxs, k, k2, mins.len());
    let a = walk(mins, maxs, k).unwrap();
    let b = walk(mins, maxs, k2).unwrap();
    let i = choose|i: int| 0 <= i < a.len() && i < b.len() && a.subrange(0, i) == b.subrange(0, i) && #[trigger] a[i] < b[i];
    assert(a[i] != b[i]);
}

/// The walk of `GridIterator::next` stays inside the box of its range and
/// reaches every position of it before it ends.
pub proof fn lemma_walk_covers_box(mins: Seq<u64>, maxs: Seq<u64>, p: Seq<u64>, k: nat)
    requires
        range_wf(mins, maxs),
        lens_fit(mins, maxs),
    ensures
        k < total(mins, maxs, mins.len()) ==> walk(mins, maxs, k) is Some && in_box(walk(mins, maxs, k).unwrap(), mins, maxs),
        in_box(p, mins, maxs) ==> exists|j: nat| j < total(mins, maxs, mins.len()) && #[trigger] walk(mins, maxs, j) == Some(p),
{
    let n = mins.len();
    if k < total(mins, maxs, n) {
        lemma_walk_is_chunk_pos(mins, maxs, k);
        lemma_chunk_pos_in_box(mins, maxs, k, n);
    }
    if in_box(p, mins, maxs) {
        lemma_pos_index(mins, maxs, p, n);
        let j = pos_index(mins, maxs, p, n) as nat;
        lemma_walk_is_chunk_pos(mins, maxs, j);
        assert(p.subrange(0, n as int) =~= p);
        assert(walk(mins, maxs, j) == Some(p));
    }
}

/// `get_chunk_pos` repeats with period the number of chunks of the range,
/// and every position it gives lies in the range's box.
pub proof fn lemma_chunk_pos_periodic(mins: Seq<u64>, maxs: Seq<u64>, k: nat)
    requires
        range_wf(mins, maxs),
    ensures
        total(mins, maxs, mins.len()) >= 1,
        chunk_pos(mins, maxs, k, mins.len()) == chunk_pos(
            mins,
            maxs,
            (k as int % total(mins, maxs, mins.len())) as nat,
            mins.len(),
        ),
        in_box(chunk_pos(mins, maxs, k, mins.len()), mins, maxs),
{
    lemma_chunk_pos_mod(mins, maxs, k, mins.len());
    lemma_chunk_pos_in_box(mins, maxs, k, mins.len());
}

} // verus!

verus! {

/// Where a chunk's selected sub-block lies in the array, and how to find the
/// array coordinates of an element of the (row-major) sub-block.
#[derive(Clone, Debug)]
pub struct SubsetInfo {
    pub global_starts: Vec<u64>,
    pub shape: Vec<u64>,
    pub strides: Vec<u64>,
}

impl SubsetInfo {
    /// Array coordinate along `dim` of the element at row-major offset `local_pos`.
    pub fn global_coord(&self, dim: usize, local_pos: u64) -> (r: u64)
        requires
            dim < self.global_starts@.len(),
            dim < self.shape@.len(),
            dim < self.strides@.len(),
            self.strides@[dim as int] > 0,
            self.shape@[dim as int] > 0,
            self.global_starts@[dim as int] + self.shape@[dim as int] - 1 <= u64::MAX,
        ensures
            r == self.global_starts@[dim as int] + (local_pos / self.strides@[dim as int]) % self.shape@[dim as int],
            self.global_starts@[dim as int] <= r < self.global_starts@[dim as int] + self.shape@[dim as int],
    {
        let q = local_pos / self.strides[dim];
        let m = q % self.shape[dim];
        self.global_starts[dim] + m
    }
}

/// Product of `shape[d+1..]`: the row-major stride of dimension `d`.
pub open spec fn stride(shape: Seq<u64>, d: int) -> int
    decreases shape.len() - d,
{
    if d + 1 >= shape.len() {
        1
    } else {
        stride(shape, d + 1) * shape[d + 1]
    }
}

/// Offset along dimension `d` of the element at row-major position `p` of a
/// block of the given shape.
pub open spec fn row_major_offset(shape: Seq<u64>, p: int, d: int) -> int {
    (p / stride(shape, d)) % (shape[d] as int)
}

/// `sum over e >= d of row_major_offset(shape, p, e) * stride(shape, e)`.
pub open spec fn offsets_sum(shape: Seq<u64>, p: int, d: int) -> int
    decreases shape.len() - d,
{
    if d >= shape.len() || d < 0 {
        0
    } else {
        row_major_offset(shape, p, d) * stride(shape, d) + offsets_sum(shape, p, d + 1)
    }
}

proof fn lemma_offsets_sum_mod(shape: Seq<u64>, p: int, d: int)
    requires
        0 <= d < shape.len(),
        0 <= p,
        forall|i: int| 0 <= i < shape.len() ==> shape[i] >= 1,
    ensures
        offsets_sum(shape, p, d) == p % (stride(shape, d) * shape[d]),
    decreases shape.len() - d,
{
    lemma_stride_pos(shape, d);
    let sd = stride(shape, d);
    let m = shape[d] as int;
    let o = row_major_offset(shape, p, d);
    lemma_breakdown(p, sd, m);
    assert(p % (sd * m) == sd * ((p / sd) % m) + p % sd);
    assert(o == (p / sd) % m);
    lemma_mul_is_commutative(o, sd);
    assert(offsets_sum(shape, p, d) == o * sd + offsets_sum(shape, p, d + 1));
    if d + 1 < shape.len() {
        lemma_offsets_sum_mod(shape, p, d + 1);
        assert(sd == stride(shape, d + 1) * shape[d + 1]);
        assert(offsets_sum(shape, p, d + 1) == p % sd);
    } else {
        assert(sd == 1);
        lemma_fundamental_div_mod_converse(p, 1, p, 0);
        assert(p % sd == 0);
        assert(offsets_sum(shape, p, d + 1) == 0);
    }
}

/// The row-major offsets of the elements of a sub-block read back their
/// position: for every element position `p` of a block of shape `shape`, the
/// offsets `(p / stride_d) % shape_d` that `SubsetInfo::global_coord` adds to
/// the block's start lie within the block and recompose `p` with the
/// strides that `plan_chunk_subset` computes.
pub proof fn lemma_offsets_recompose(shape: Seq<u64>, p: int)
    requires
        shape.len() >= 1,
        forall|i: int| 0 <= i < shape.len() ==> shape[i] >= 1,
        0 <= p < stride(shape, 0) * shape[0],
    ensures
        offsets_sum(shape, p, 0) == p,
        forall|d: int| 0 <= d < shape.len() ==> 0 <= #[trigger] row_major_offset(shape, p, d) < shape[d],
{
    lemma_offsets_sum_mod(shape, p, 0);
    vstd::arithmetic::div_mod::lemma_small_mod(p as nat, (stride(shape, 0) * shape[0]) as nat);
    assert forall|d: int| 0 <= d < shape.len() implies 0 <= #[trigger] row_major_offset(shape, p, d) < shape[d] by {
        lemma_stride_pos(shape, d);
        vstd::arithmetic::div_mod::lemma_div_pos_is_pos(p, stride(shape, d));
    }
}

/// First array element of chunk `g` along a dimension with chunk size `c`.
pub open spec fn chunk_start(g: u64, c: u64) -> int {
    g * c
}

/// Lowest / highest array index of the part of chunk `g` inside `[lo, hi]`.
pub open spec fn sub_lo(g: u64, c: u64, lo: u64) -> int {
    if lo as int >= g * c { lo as int } else { g * c }
}

pub open spec fn sub_hi(g: u64, c: u64, hi: u64) -> int {
    if hi as int <= g * c + c - 1 { hi as int } else { g * c + c - 1 }
}

/// Over the dimensions of the chunk shape `cs` (at least one; the other
/// slices may be longer), the chunk at grid position `grid` has positive
/// chunk sizes, lies inside the `u64` range and intersects the bounds.
pub open spec fn subset_ok(grid: Seq<u64>, cs: Seq<u64>, lo: Seq<u64>, hi: Seq<u64>) -> bool {
    &&& cs.len() >= 1
    &&& grid.len() >= cs.len() && lo.len() >= cs.len() && hi.len() >= cs.len()
    &&& forall|d: int| 0 <= d < cs.len() ==> #[trigger] dim_subset_ok(grid[d], cs[d], lo[d], hi[d])
}

pub open spec fn dim_subset_ok(g: u64, c: u64, lo: u64, hi: u64) -> bool {
    &&& c > 0
    &&& g * c + c - 1 <= u64::MAX
    &&& sub_lo(g, c, lo) <= sub_hi(g, c, hi)
}

/// Sub-block shape selected from each chunk dimension.
pub open spec fn subset_shape(grid: Seq<u64>, cs: Seq<u64>, lo: Seq<u64>, hi: Seq<u64>) -> Seq<u64> {
    Seq::new(cs.len(), |d: int| (sub_hi(grid[d], cs[d], hi[d]) - sub_lo(grid[d], cs[d], lo[d]) + 1) as u64)
}

/// Select the part of chunk `grid_coord` that lies within `[bounds_min, bounds_max]`:
/// its start inside the chunk, and the sub-block's placement in the array.
/// The rank is that of `chunk_shape`; longer position and bound slices are
/// read only up to it.
pub fn plan_chunk_subset(
    grid_coord: &[u64],
    chunk_shape: &[u64],
    bounds_min: &[u64],
    bounds_max: &[u64],
) -> (r: (Vec<u64>, SubsetInfo))
    requires
        subset_ok(grid_coord@, chunk_shape@, bounds_min@, bounds_max@),
        stride(subset_shape(grid_coord@, chunk_shape@, bounds_min@, bounds_max@), 0) <= u64::MAX,
    ensures
        r.0@.len() == chunk_shape@.len(),
        r.1.global_starts@.len() == chunk_shape@.len(),
        r.1.shape@ == subset_shape(grid_coord@, chunk_shape@, bounds_min@, bounds_max@),
        r.1.strides@.len() == chunk_shape@.len(),
        forall|d: int| 0 <= d < chunk_shape@.len() ==> {
            &&& r.1.global_starts@[d] == sub_lo(grid_coord@[d], chunk_shape@[d], bounds_min@[d])
            &&& #[trigger] r.0@[d] == sub_lo(grid_coord@[d], chunk_shape@[d], bounds_min@[d])
                - chunk_start(grid_coord@[d], chunk_shape@[d])
            &&& r.1.strides@[d] == stride(r.1.shape@, d)
        },
{
    let rank = chunk_shape.len();
    let ghost shp = subset_shape(grid_coord@, chunk_shape@, bounds_min@, bounds_max@);
    let mut start: Vec<u64> = Vec::new();
    let mut shape: Vec<u64> = Vec::new();
    let mut global: Vec<u64> = Vec::new();
    let mut d: usize = 0;
    while d < rank
        invariant
            rank == chunk_shape@.len(),
            subset_ok(grid_coord@, chunk_shape@, bounds_min@, bounds_max@),
            shp == subset_shape(grid_coord@, chunk_shape@, bounds_min@, bounds_max@),
            d <= rank,
            start@.len() == d,
            shape@.len() == d,
            global@.len() == d,
            forall|j: int| 0 <= j < d ==> #[trigger] global@[j] == sub_lo(grid_coord@[j], chunk_shape@[j], bounds_min@[j]),
            forall|j: int| 0 <= j < d ==> #[trigger] start@[j] == sub_lo(grid_coord@[j], chunk_shape@[j], bounds_min@[j])
                    - chunk_start(grid_coord@[j], chunk_shape@[j]),
            forall|j: int| 0 <= j < d ==> #[trigger] shape@[j] == shp[j],
        decreases rank - d,
    {
        let g = grid_coord[d];
        let c = chunk_shape[d];
        let bl = bounds_min[d];
        let bh = bounds_max[d];
        assert(dim_subset_ok(g, c, bl, bh));
        let ghost old_shape = shape@;
        let ghost old_start = start@;
        let ghost old_global = global@;
        let cstart = g * c;
        let cend = cstart + (c - 1);
        let lo = if bl >= cstart { bl } else { cstart };
        let hi = if bh <= cend { bh } else { cend };
        start.push(lo - cstart);
        shape.push(hi - lo + 1);
        global.push(lo);
        assert(shape@ == old_shape.push((hi - lo + 1) as u64));
        assert(start@ == old_start.push((lo - cstart) as u64));
        assert(global@ == old_global.push(lo));
        assert(cstart == chunk_start(g, c));
        assert(lo == sub_lo(g, c, bl));
        assert(hi == sub_hi(g, c, bh));
        assert(shp[d as int] == (hi - lo + 1) as u64);
        assert(start@[d as int] == sub_lo(g, c, bl) - chunk_start(g, c));
        d = d + 1;
    }
    assert(shape@ =~= shp);
    assert forall|i: int| 0 <= i < shp.len() implies shp[i] >= 1 by {
        assert(dim_subset_ok(grid_coord@[i], chunk_shape@[i], bounds_min@[i], bounds_max@[i]));
    }
    let mut strides: Vec<u64> = Vec::new();
    let mut j: usize = 0;
    while j < rank
        invariant
            strides@.len() == j,
            j <= rank,
            forall|i: int| 0 <= i < j ==> strides@[i] == 1,
        decreases rank - j,
    {
        strides.push(1);
        j = j + 1;
    }
    let mut k: usize = rank - 1;
    proof {
        lemma_stride_bounded(shp, 0, (rank - 1) as int);
    }
    assert(strides@[k as int] == stride(shp, k as int));
    while k > 0
        invariant
            rank == shp.len(),
            shape@ == shp,
            k < rank,
            strides@.len() == rank,
            stride(shp, 0) <= u64::MAX,
            forall|i: int| 0 <= i < shp.len() ==> shp[i] >= 1,
            forall|i: int| k <= i < rank ==> #[trigger] strides@[i] == stride(shp, i),
        decreases k,
    {
        proof {
            lemma_stride_bounded(shp, 0, k - 1);
        }
        let v = strides[k] * shape[k];
        strides.set(k - 1, v);
        k = k - 1;
    }
    (start, SubsetInfo { global_starts: global, shape, strides })
}

proof fn lemma_stride_bounded(shape: Seq<u64>, a: int, b: int)
    requires
        0 <= a <= b < shape.len(),
        forall|i: int| 0 <= i < shape.len() ==> shape[i] >= 1,
    ensures
        stride(shape, b) <= stride(shape, a),
        stride(shape, b) >= 1,
    decreases b - a,
{
    lemma_stride_pos(shape, b);
    if a < b {
        lemma_stride_bounded(shape, a + 1, b);
        lemma_stride_pos(shape, a + 1);
        vstd::arithmetic::mul::lemma_mul_inequality(1, shape[a + 1] as int, stride(shape, a + 1));
        assert(stride(shape, a) == stride(shape, a + 1) * shape[a + 1]);
        assert(stride(shape, a + 1) * shape[a + 1] >= stride(shape, a + 1)) by (nonlinear_arith)
            requires
                shape[a + 1] >= 1,
                stride(shape, a + 1) >= 1,
        ;
    }
}

proof fn lemma_stride_pos(shape: Seq<u64>, b: int)
    requires
        0 <= b,
        forall|i: int| 0 <= i < shape.len() ==> shape[i] >= 1,
    ensures
        stride(shape, b) >= 1,
    decreases shape.len() - b,
{
    if b + 1 < shape.len() {
        lemma_stride_pos(shape, b + 1);
        assert(stride(shape, b + 1) * shape[b + 1] >= 1) by (nonlinear_arith)
            requires
                shape[b + 1] >= 1,
                stride(shape, b + 1) >= 1,
        ;
    }
}

/// Outcome of reading one chunk of a scan.
#[derive(Clone, Debug)]
pub enum ChunkReadStatus {
    /// Data was read into the buffer; where it lies in the array.
    Read(SubsetInfo),
    /// The stream has no more chunks.
    Exhausted,
}

} // verus!
