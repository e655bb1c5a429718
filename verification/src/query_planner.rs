//! Translating a comparison on a coordinate axis into an index range.
//!
//! Coordinate values are floating-point numbers; the library works on their
//! order keys: integers that compare exactly as the (non-NaN) values do.

use vstd::prelude::*;
use crate::text::{chars_of, eq_str};

verus! {

/// Inclusive index bounds of a query, per dimension.
#[derive(Debug)]
pub struct QueryBounds {
    pub bounds_min: Vec<u64>,
    pub bounds_max: Vec<u64>,
}

/// A scan plan: the index bounds to read.
#[derive(Debug)]
pub struct Plan {
    pub bounds: QueryBounds,
}


/// Order key of a coordinate or query value together with the keys of
/// `value - 1e-8` and `value + 1e-8`, the tolerance used by equality filters.
#[derive(Clone, Copy, Debug, PartialEq, Eq, Structural)]
pub struct FilterValue {
    pub key: i64,
    pub tol_low: i64,
    pub tol_high: i64,
}

/// A one-sided comparison `x op k` on order keys.
#[derive(Clone, Copy, Debug, PartialEq, Eq, Structural)]
pub enum KeyPred {
    Lt(i64),
    Le(i64),
    Gt(i64),
    Ge(i64),
}

pub open spec fn holds(p: KeyPred, x: i64) -> bool {
    match p {
        KeyPred::Lt(k) => x < k,
        KeyPred::Le(k) => x <= k,
        KeyPred::Gt(k) => x > k,
        KeyPred::Ge(k) => x >= k,
    }
}

/// Whether key `x` satisfies the predicate.
pub fn eval_pred(p: KeyPred, x: i64) -> (r: bool)
    ensures
        r == holds(p, x),
{
    match p {
        KeyPred::Lt(k) => x < k,
        KeyPred::Le(k) => x <= k,
        KeyPred::Gt(k) => x > k,
        KeyPred::Ge(k) => x >= k,
    }
}

/// Every element satisfying `p` comes before every element that does not.
pub open spec fn partitioned(c: Seq<i64>, p: KeyPred) -> bool {
    forall|i: int, j: int| 0 <= i < j < c.len() && holds(p, c[j]) ==> holds(p, c[i])
}

/// Number of leading elements of `c` that satisfy `p`.
pub open spec fn lead(c: Seq<i64>, p: KeyPred) -> nat
    decreases c.len(),
{
    if c.len() == 0 {
        0
    } else if holds(p, c[0]) {
        1 + lead(c.drop_first(), p)
    } else {
        0
    }
}

/// `r` splits `c` into a satisfying prefix and a non-satisfying rest.
pub open spec fn is_split(c: Seq<i64>, p: KeyPred, r: int) -> bool {
    &&& 0 <= r <= c.len()
    &&& forall|i: int| 0 <= i < r ==> holds(p, #[trigger] c[i])
    &&& forall|i: int| r <= i < c.len() ==> !holds(p, #[trigger] c[i])
}

/// A split point is the length of the leading run that satisfies the predicate.
pub proof fn lemma_split_is_lead(c: Seq<i64>, p: KeyPred, r: int)
    requires
        is_split(c, p, r),
    ensures
        lead(c, p) == r,
    decreases c.len(),
{
    if c.len() > 0 {
        if r > 0 {
            assert(holds(p, c[0]));
            let d = c.drop_first();
            assert forall|i: int| 0 <= i < r - 1 implies holds(p, #[trigger] d[i]) by {
                assert(d[i] == c[i + 1]);
            }
            assert forall|i: int| r - 1 <= i < d.len() implies !holds(p, #[trigger] d[i]) by {
                assert(d[i] == c[i + 1]);
            }
            lemma_split_is_lead(d, p, r - 1);
        } else {
            assert(!holds(p, c[0]));
        }
    }
}

/// Index of the first element of `c` that does not satisfy `p`, found by
/// binary search; exact when `c` is partitioned by `p`.
pub fn partition_point(c: &[i64], p: KeyPred) -> (r: usize)
    ensures
        r <= c@.len(),
        partitioned(c@, p) ==> r == lead(c@, p),
{
    let mut lo: usize = 0;
    let mut hi: usize = c.len();
    while lo < hi
        invariant
            lo <= hi <= c@.len(),
            partitioned(c@, p) ==> forall|i: int| 0 <= i < lo ==> holds(p, #[trigger] c@[i]),
            partitioned(c@, p) ==> forall|i: int| hi <= i < c@.len() ==> !holds(p, #[trigger] c@[i]),
        decreases hi - lo,
    {
        let mid = lo + (hi - lo) / 2;
        if eval_pred(p, c[mid]) {
            lo = mid + 1;
        } else {
            hi = mid;
        }
    }
    proof {
        if partitioned(c@, p) {
            lemma_split_is_lead(c@, p, lo as int);
        }
    }
    lo
}

/// Coordinates in non-decreasing order.
pub open spec fn ascending(c: Seq<i64>) -> bool {
    forall|i: int, j: int| 0 <= i <= j < c.len() ==> c[i] <= c[j]
}

/// Coordinates in non-increasing order.
pub open spec fn descending(c: Seq<i64>) -> bool {
    forall|i: int, j: int| 0 <= i <= j < c.len() ==> c[i] >= c[j]
}

/// Comparison operators understood by `translate_filter`.
pub open spec fn op_code(op: Seq<char>) -> int {
    if op == ">"@ {
        1
    } else if op == ">="@ {
        2
    } else if op == "<"@ {
        3
    } else if op == "<="@ {
        4
    } else if op == "="@ {
        5
    } else {
        0
    }
}

pub open spec fn imax(a: int, b: int) -> int {
    if a >= b { a } else { b }
}

pub open spec fn imin(a: int, b: int) -> int {
    if a <= b { a } else { b }
}

/// Index range `[lo, hi]` of the coordinates (sorted either way) that satisfy
/// `x op value`, narrowed to `[cur_min, cur_max]`; `(1, 0)` when none does;
/// `(cur_min, cur_max)` for no coordinates or an unknown operator.
pub open spec fn filter_range(
    c: Seq<i64>,
    code: int,
    v: FilterValue,
    cur_min: int,
    cur_max: int,
) -> (int, int) {
    let len = c.len() as int;
    let asc = c.len() > 0 && c[0] <= c[len - 1];
    if c.len() == 0 || code == 0 {
        (cur_min, cur_max)
    } else if code == 1 || code == 2 {
        let p = if asc {
            if code == 1 { KeyPred::Le(v.key) } else { KeyPred::Lt(v.key) }
        } else {
            if code == 1 { KeyPred::Gt(v.key) } else { KeyPred::Ge(v.key) }
        };
        let idx = lead(c, p) as int;
        if asc {
            if idx < len { (imax(cur_min, idx), imin(cur_max, len - 1)) } else { (1, 0) }
        } else {
            if idx > 0 { (imax(cur_min, 0), imin(cur_max, idx - 1)) } else { (1, 0) }
        }
    } else if code == 3 || code == 4 {
        let p = if asc {
            if code == 3 { KeyPred::Lt(v.key) } else { KeyPred::Le(v.key) }
        } else {
            if code == 3 { KeyPred::Ge(v.key) } else { KeyPred::Gt(v.key) }
        };
        let idx = lead(c, p) as int;
        if asc {
            if idx > 0 { (imax(cur_min, 0), imin(cur_max, idx - 1)) } else { (1, 0) }
        } else {
            if idx < len { (imax(cur_min, idx), imin(cur_max, len - 1)) } else { (1, 0) }
        }
    } else {
        let start = if asc {
            lead(c, KeyPred::Lt(v.tol_low))
        } else {
            lead(c, KeyPred::Gt(v.tol_high))
        } as int;
        let end = if asc {
            lead(c, KeyPred::Le(v.tol_high))
        } else {
            lead(c, KeyPred::Ge(v.tol_low))
        } as int;
        if start < end { (imax(cur_min, start), imin(cur_max, end - 1)) } else { (1, 0) }
    }
}

} // verus!

verus! {

proof fn lemma_sorted_partitioned(c: Seq<i64>, k: i64)
    ensures
        ascending(c) ==> partitioned(c, KeyPred::Lt(k)) && partitioned(c, KeyPred::Le(k)),
        descending(c) ==> partitioned(c, KeyPred::Gt(k)) && partitioned(c, KeyPred::Ge(k)),
{
}

proof fn lemma_flat_descending_is_ascending(c: Seq<i64>)
    requires
        descending(c),
        c.len() > 0,
        c[0] <= c[c.len() - 1],
    ensures
        ascending(c),
{
    assert forall|i: int, j: int| 0 <= i <= j < c.len() implies c[i] <= c[j] by {
        assert(c[0] >= c[i]);
        assert(c[j] >= c[c.len() - 1]);
    }
}

/// Narrow `[current_min, current_max]` to the indices of `coords` (order keys of
/// a sorted coordinate axis) that satisfy `coord <op> value`, for `op` one of
/// `>`, `>=`, `<`, `<=`, `=` (equality within the tolerance carried by `value`).
/// No match gives the empty range `(1, 0)`; an unknown operator or no
/// coordinates leave the range unchanged.
pub fn translate_filter(
    coords: &[i64],
    operator: &str,
    value: FilterValue,
    current_min: u64,
    current_max: u64,
) -> (r: (u64, u64))
    ensures
        ascending(coords@) || descending(coords@) ==> (r.0 as int, r.1 as int) == filter_range(
            coords@,
            op_code(operator@),
            value,
            current_min as int,
            current_max as int,
        ),
        r == (1u64, 0u64) || (current_min <= r.0 && r.1 <= current_max),
        coords@.len() == 0 || op_code(operator@) == 0 ==> r == (current_min, current_max),
{
    let len_us = coords.len();
    if len_us == 0 {
        return (current_min, current_max);
    }
    let ops = chars_of(operator);
    let op = ops.as_slice();
    let is_ascending = coords[0] <= coords[len_us - 1];
    let len = len_us as u64;
    proof {
        lemma_sorted_partitioned(coords@, value.key);
        lemma_sorted_partitioned(coords@, value.tol_low);
        lemma_sorted_partitioned(coords@, value.tol_high);
        if descending(coords@) && is_ascending {
            lemma_flat_descending_is_ascending(coords@);
        }
        if ascending(coords@) {
            assert(coords@[0] <= coords@[len_us - 1]);
        }
    }
    let gt = eq_str(op, ">");
    let ge = eq_str(op, ">=");
    let lt = eq_str(op, "<");
    let le = eq_str(op, "<=");
    let eq = eq_str(op, "=");
    let (matched_min, matched_max): (u64, u64) = if gt || ge {
        let p = if is_ascending {
            if gt { KeyPred::Le(value.key) } else { KeyPred::Lt(value.key) }
        } else {
            if gt { KeyPred::Gt(value.key) } else { KeyPred::Ge(value.key) }
        };
        let idx = partition_point(coords, p) as u64;
        if is_ascending {
            if idx < len {
                (idx, len - 1)
            } else {
                return (1, 0);
            }
        } else {
            if idx > 0 {
                (0, idx - 1)
            } else {
                return (1, 0);
            }
        }
    } else if lt || le {
        let p = if is_ascending {
            if lt { KeyPred::Lt(value.key) } else { KeyPred::Le(value.key) }
        } else {
            if lt { KeyPred::Ge(value.key) } else { KeyPred::Gt(value.key) }
        };
        let idx = partition_point(coords, p) as u64;
        if is_ascending {
            if idx > 0 {
                (0, idx - 1)
            } else {
                return (1, 0);
            }
        } else {
            if idx < len {
                (idx, len - 1)
            } else {
                return (1, 0);
            }
        }
    } else if eq {
        let start = if is_ascending {
            partition_point(coords, KeyPred::Lt(value.tol_low))
        } else {
            partition_point(coords, KeyPred::Gt(value.tol_high))
        } as u64;
        let end = if is_ascending {
            partition_point(coords, KeyPred::Le(value.tol_high))
        } else {
            partition_point(coords, KeyPred::Ge(value.tol_low))
        } as u64;
        if start < end {
            (start, end - 1)
        } else {
            return (1, 0);
        }
    } else {
        return (current_min, current_max);
    };
    let lo = if current_min >= matched_min { current_min } else { matched_min };
    let hi = if current_max <= matched_max { current_max } else { matched_max };
    (lo, hi)
}

/// `x op value` for the operator with code `code` (`=` within the tolerance).
pub open spec fn satisfies(code: int, v: FilterValue, x: i64) -> bool {
    if code == 1 {
        x > v.key
    } else if code == 2 {
        x >= v.key
    } else if code == 3 {
        x < v.key
    } else if code == 4 {
        x <= v.key
    } else {
        v.tol_low <= x && x <= v.tol_high
    }
}

proof fn lemma_lead_splits(c: Seq<i64>, p: KeyPred)
    requires
        partitioned(c, p),
    ensures
        is_split(c, p, lead(c, p) as int),
    decreases c.len(),
{
    if c.len() > 0 && holds(p, c[0]) {
        let d = c.drop_first();
        assert(partitioned(d, p)) by {
            assert forall|i: int, j: int| 0 <= i < j < d.len() && holds(p, d[j]) implies holds(p, d[i]) by {
                assert(d[i] == c[i + 1] && d[j] == c[j + 1]);
            }
        }
        lemma_lead_splits(d, p);
        assert forall|i: int| 0 <= i < lead(c, p) implies holds(p, #[trigger] c[i]) by {
            if i > 0 {
                assert(c[i] == d[i - 1]);
            }
        }
        assert forall|i: int| lead(c, p) <= i < c.len() implies !holds(p, #[trigger] c[i]) by {
            assert(c[i] == d[i - 1]);
        }
    } else if c.len() > 0 {
        assert forall|i: int| 0 <= i < c.len() implies !holds(p, #[trigger] c[i]) by {
            if holds(p, c[i]) && i > 0 {
                assert(holds(p, c[0]));
            }
        }
    }
}

/// Pruning is exact: on a sorted coordinate axis, an index in bounds lies in
/// the range `translate_filter` gives for one of the five operators exactly
/// when it lies in the current range and its coordinate satisfies the filter.
pub proof fn lemma_filter_range_exact(c: Seq<i64>, code: int, v: FilterValue, cur_min: int, cur_max: int, i: int)
    requires
        ascending(c) || descending(c),
        1 <= code <= 5,
        0 <= i < c.len(),
    ensures
        ({
            let r = filter_range(c, code, v, cur_min, cur_max);
            r.0 <= i <= r.1 <==> (cur_min <= i <= cur_max && satisfies(code, v, c[i]))
        }),
{
    let len = c.len() as int;
    let asc = c[0] <= c[len - 1];
    if descending(c) && asc {
        lemma_flat_descending_is_ascending(c);
    }
    if ascending(c) {
        assert(c[0] <= c[len - 1]);
    }
    lemma_sorted_partitioned(c, v.key);
    lemma_sorted_partitioned(c, v.tol_low);
    lemma_sorted_partitioned(c, v.tol_high);
    if asc {
        lemma_lead_splits(c, KeyPred::Le(v.key));
        lemma_lead_splits(c, KeyPred::Lt(v.key));
        lemma_lead_splits(c, KeyPred::Lt(v.tol_low));
        lemma_lead_splits(c, KeyPred::Le(v.tol_high));
        assert(holds(KeyPred::Le(v.key), c[i]) == (c[i] <= v.key));
        assert(holds(KeyPred::Lt(v.key), c[i]) == (c[i] < v.key));
        assert(holds(KeyPred::Lt(v.tol_low), c[i]) == (c[i] < v.tol_low));
        assert(holds(KeyPred::Le(v.tol_high), c[i]) == (c[i] <= v.tol_high));
    } else {
        lemma_lead_splits(c, KeyPred::Gt(v.key));
        lemma_lead_splits(c, KeyPred::Ge(v.key));
        lemma_lead_splits(c, KeyPred::Gt(v.tol_high));
        lemma_lead_splits(c, KeyPred::Ge(v.tol_low));
        assert(holds(KeyPred::Gt(v.key), c[i]) == (c[i] > v.key));
        assert(holds(KeyPred::Ge(v.key), c[i]) == (c[i] >= v.key));
        assert(holds(KeyPred::Gt(v.tol_high), c[i]) == (c[i] > v.tol_high));
        assert(holds(KeyPred::Ge(v.tol_low), c[i]) == (c[i] >= v.tol_low));
    }
}

} // verus!
