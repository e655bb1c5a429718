//! Dataset-level planning: asset selection, dimension naming and the
//! translation of query constraints into index bounds per dimension.

use vstd::prelude::*;
use crate::text::{join, views, push_str, push_joined, contains_name, string_of, push_decimal, decimal};
use crate::query_planner::{
    FilterValue, translate_filter, filter_range, ascending, descending, imax, imin, op_code, lemma_filter_range_exact,
};

verus! {

/// Floor and ceiling of a query value's fractional grid index
/// `(value - translation) / scale` on an affine axis, saturated to `i64`.
#[derive(Clone, Copy, Debug, PartialEq, Eq, Structural)]
pub struct GridValue {
    pub floor: i64,
    pub ceil: i64,
}

/// How a dimension's grid indices relate to query values.
pub enum Axis {
    /// A coordinate array (order keys of its values) and the query's lower /
    /// upper bound on this dimension, if any.
    Coords { keys: Vec<i64>, lower: Option<FilterValue>, upper: Option<FilterValue> },
    /// An affine axis with non-zero scale (`positive` when the scale is > 0)
    /// and the grid positions of the query's lower / upper bound, if any.
    Grid { positive: bool, low: Option<GridValue>, high: Option<GridValue> },
    /// Neither: the dimension is indexed by position only and is not pruned.
    Index,
}

/// Everything the query says about one dimension.
pub struct DimConstraint {
    /// Index the dimension is pinned to, if any.
    pub pin: Option<u64>,
    pub axis: Axis,
}

/// Largest valid index of a dimension of the given length (0 for an empty one).
pub open spec fn full_max(len: u64) -> int {
    if len > 0 { len - 1 } else { 0 }
}

/// Coordinates read as ascending (or there are none).
pub open spec fn keys_ascending(k: Seq<i64>) -> bool {
    k.len() == 0 || k[0] <= k[k.len() - 1]
}

pub open spec fn coords_min_step(k: Seq<i64>, v: Option<FilterValue>, b: (int, int)) -> (int, int) {
    match v {
        Some(v) => {
            let t = filter_range(k, 2, v, b.0, b.1);
            if keys_ascending(k) { (imax(b.0, t.0), b.1) } else { (b.0, imin(b.1, t.1)) }
        },
        None => b,
    }
}

pub open spec fn coords_max_step(k: Seq<i64>, v: Option<FilterValue>, b: (int, int)) -> (int, int) {
    match v {
        Some(v) => {
            let t = filter_range(k, 4, v, b.0, b.1);
            if keys_ascending(k) { (b.0, imin(b.1, t.1)) } else { (imax(b.0, t.0), b.1) }
        },
        None => b,
    }
}

pub open spec fn grid_min_step(positive: bool, g: Option<GridValue>, b: (int, int)) -> (int, int) {
    match g {
        Some(g) => {
            let t = imax(if positive { g.floor as int } else { g.ceil as int }, 0);
            if positive { (imax(b.0, t), b.1) } else { (b.0, imin(b.1, t)) }
        },
        None => b,
    }
}

pub open spec fn grid_max_step(positive: bool, g: Option<GridValue>, b: (int, int)) -> (int, int) {
    match g {
        Some(g) => {
            let t = imax(if positive { g.ceil as int } else { g.floor as int }, 0);
            if positive { (b.0, imin(b.1, t)) } else { (imax(b.0, t), b.1) }
        },
        None => b,
    }
}

/// The dimensions whose bounds `dim_bounds` fixes: all of them but a
/// coordinate axis that is bounded by the query and whose values are sorted
/// neither way (real coordinate arrays are sorted).
pub open spec fn bounds_stated(d: DimConstraint) -> bool {
    d.pin is Some || match d.axis {
        Axis::Coords { keys, lower, upper } => ascending(keys@) || descending(keys@) || (lower is None
            && upper is None),
        _ => true,
    }
}

/// Inclusive index bounds of one dimension of length `len`: a pin wins;
/// otherwise the lower then the upper query bound narrow the full range.
pub open spec fn dim_bounds(len: u64, d: DimConstraint) -> (int, int) {
    let full = (0int, full_max(len));
    match d.pin {
        Some(p) => {
            let t = imin(p as int, full_max(len));
            (t, t)
        },
        None => match d.axis {
            Axis::Coords { keys, lower, upper } => coords_max_step(
                keys@,
                upper,
                coords_min_step(keys@, lower, full),
            ),
            Axis::Grid { positive, low, high } => grid_max_step(
                positive,
                high,
                grid_min_step(positive, low, full),
            ),
            Axis::Index => full,
        },
    }
}

fn coords_bounds(keys: &Vec<i64>, min: Option<FilterValue>, max: Option<FilterValue>, fmax: u64) -> (r: (u64, u64))
    ensures
        r.1 <= fmax,
        ascending(keys@) || descending(keys@) || (min is None && max is None) ==> (r.0 as int, r.1 as int)
            == coords_max_step(keys@, max, coords_min_step(keys@, min, (0, fmax as int))),
{
    proof {
        reveal_strlit(">");
        reveal_strlit(">=");
        reveal_strlit("<");
        reveal_strlit("<=");
        assert(">="@.len() == 2 && ">"@.len() == 1);
        assert(">="@ != ">"@);
        assert(op_code(">="@) == 2);
        assert("<="@.len() == 2 && "<"@.len() == 1);
        assert("<="@ != "<"@);
        assert("<="@ != ">"@ && "<="@ != ">="@) by {
            assert("<="@[0] != ">"@[0]);
            assert("<="@[0] != ">="@[0]);
        }
        assert(op_code("<="@) == 4);
    }
    let n = keys.len();
    let asc = n == 0 || keys[0] <= keys[n - 1];
    let mut lo: u64 = 0;
    let mut hi: u64 = fmax;
    if let Some(v) = min {
        let (t_min, t_max) = translate_filter(keys.as_slice(), ">=", v, lo, hi);
        if asc {
            lo = if lo >= t_min { lo } else { t_min };
        } else {
            hi = if hi <= t_max { hi } else { t_max };
        }
    }
    if let Some(v) = max {
        let (t_min, t_max) = translate_filter(keys.as_slice(), "<=", v, lo, hi);
        if asc {
            hi = if hi <= t_max { hi } else { t_max };
        } else {
            lo = if lo >= t_min { lo } else { t_min };
        }
    }
    (lo, hi)
}

fn grid_bounds(positive: bool, min: Option<GridValue>, max: Option<GridValue>, fmax: u64) -> (r: (u64, u64))
    ensures
        (r.0 as int, r.1 as int) == grid_max_step(positive, max, grid_min_step(positive, min, (0, fmax as int))),
{
    let mut lo: u64 = 0;
    let mut hi: u64 = fmax;
    if let Some(g) = min {
        let t = if positive { g.floor } else { g.ceil };
        let t: u64 = if t < 0 { 0 } else { t as u64 };
        if positive {
            lo = if lo >= t { lo } else { t };
        } else {
            hi = if hi <= t { hi } else { t };
        }
    }
    if let Some(g) = max {
        let t = if positive { g.ceil } else { g.floor };
        let t: u64 = if t < 0 { 0 } else { t as u64 };
        if positive {
            hi = if hi <= t { hi } else { t };
        } else {
            lo = if lo >= t { lo } else { t };
        }
    }
    (lo, hi)
}

/// Inclusive index bounds `(bounds_min, bounds_max)` per dimension for a query.
pub fn compute_bounds(shape: &[u64], dims: &[DimConstraint]) -> (r: (Vec<u64>, Vec<u64>))
    requires
        dims@.len() == shape@.len(),
    ensures
        r.0@.len() == shape@.len(),
        r.1@.len() == shape@.len(),
        forall|i: int| 0 <= i < shape@.len() ==> r.1@[i] <= full_max(#[trigger] shape@[i]),
        forall|i: int|
            0 <= i < shape@.len() && bounds_stated(dims@[i]) ==> (r.0@[i] as int, r.1@[i] as int)
                == dim_bounds(shape@[i], #[trigger] dims@[i]),
{
    let rank = shape.len();
    let mut bmin: Vec<u64> = Vec::new();
    let mut bmax: Vec<u64> = Vec::new();
    let mut i: usize = 0;
    while i < rank
        invariant
            rank == shape@.len(),
            dims@.len() == rank,
            i <= rank,
            bmin@.len() == i,
            bmax@.len() == i,
            forall|j: int| 0 <= j < i ==> bmax@[j] <= full_max(#[trigger] shape@[j]),
            forall|j: int|
                0 <= j < i && bounds_stated(dims@[j]) ==> (bmin@[j] as int, bmax@[j] as int)
                    == dim_bounds(shape@[j], #[trigger] dims@[j]),
        decreases rank - i,
    {
        let fmax: u64 = if shape[i] > 0 { shape[i] - 1 } else { 0 };
        let d = &dims[i];
        let (lo, hi): (u64, u64) = match d.pin {
            Some(p) => {
                let t = if p <= fmax { p } else { fmax };
                (t, t)
            },
            None => match &d.axis {
                Axis::Coords { keys, lower, upper } => coords_bounds(keys, *lower, *upper, fmax),
                Axis::Grid { positive, low, high } => grid_bounds(*positive, *low, *high, fmax),
                Axis::Index => (0, fmax),
            },
        };
        bmin.push(lo);
        bmax.push(hi);
        i = i + 1;
    }
    (bmin, bmax)
}

} // verus!

verus! {

/// Array path to open in a STAC group with the given (sorted) asset names.
pub open spec fn asset_path_of(assets: Seq<Seq<char>>, asset: Option<Seq<char>>) -> Result<Seq<char>, Seq<char>> {
    match asset {
        Some(a) => if assets.contains(a) {
            Ok("/"@ + a)
        } else {
            Err("asset '"@ + a + "' not found. Available: "@ + join(assets, ", "@))
        },
        None => if assets.len() == 1 {
            Ok("/"@ + assets[0])
        } else if assets.len() == 0 {
            Err("STAC group has no assets"@)
        } else {
            Err("STAC Item has multiple assets; choose one with asset := '<name>'. Available: "@
                + join(assets, ", "@))
        },
    }
}

pub open spec fn opt_str_view(o: Option<&str>) -> Option<Seq<char>> {
    match o {
        Some(s) => Some(s@),
        None => None,
    }
}

/// Given the sorted asset names of a STAC group and an optional asset name,
/// return the array path to open (e.g. `/red`). Errors list available assets.
pub fn select_asset_path(assets: &[String], asset: Option<&str>) -> (r: Result<String, String>)
    ensures
        crate::cog::result_strings_view(r) == asset_path_of(views(assets@), opt_str_view(asset)),
{
    let mut out: Vec<char> = Vec::new();
    match asset {
        Some(a) => {
            if contains_name(assets, a) {
                push_str(&mut out, "/");
                push_str(&mut out, a);
                Ok(string_of(out.as_slice()))
            } else {
                push_str(&mut out, "asset '");
                push_str(&mut out, a);
                push_str(&mut out, "' not found. Available: ");
                push_joined(&mut out, assets, ", ");
                Err(string_of(out.as_slice()))
            }
        },
        None => {
            if assets.len() == 1 {
                push_str(&mut out, "/");
                push_str(&mut out, assets[0].as_str());
                Ok(string_of(out.as_slice()))
            } else if assets.len() == 0 {
                Err(String::from_str("STAC group has no assets"))
            } else {
                push_str(&mut out, "STAC Item has multiple assets; choose one with asset := '<name>'. Available: ");
                push_joined(&mut out, assets, ", ");
                Err(string_of(out.as_slice()))
            }
        },
    }
}

/// A list of dimension names in which every entry is a name.
pub open spec fn all_named(d: Seq<Option<String>>) -> bool {
    forall|i: int| 0 <= i < d.len() ==> (#[trigger] d[i]) is Some
}

/// Positional fallback name `dim_<i>`.
pub open spec fn positional_name(i: int) -> Seq<char> {
    "dim_"@ + decimal(i as nat)
}

/// Dimension names of an array of the given rank: the native Zarr v3
/// `dimension_names` when complete, else the `_ARRAY_DIMENSIONS` attribute
/// when complete, else `dim_0`, `dim_1`, ...
pub open spec fn dimension_names_of(
    native: Option<Seq<Option<String>>>,
    attr: Option<Seq<Option<String>>>,
    rank: int,
) -> Seq<Seq<char>> {
    if native is Some && native.unwrap().len() == rank && all_named(native.unwrap()) {
        Seq::new(rank as nat, |i: int| native.unwrap()[i].unwrap()@)
    } else if attr is Some && attr.unwrap().len() == rank && all_named(attr.unwrap()) {
        Seq::new(rank as nat, |i: int| attr.unwrap()[i].unwrap()@)
    } else {
        Seq::new(rank as nat, |i: int| positional_name(i))
    }
}

pub open spec fn opt_vec_view(o: Option<Vec<Option<String>>>) -> Option<Seq<Option<String>>> {
    match o {
        Some(v) => Some(v@),
        None => None,
    }
}

fn complete_names(d: &Vec<Option<String>>) -> (r: Option<Vec<String>>)
    ensures
        r is Some <==> all_named(d@),
        r matches Some(v) ==> views(v@) == Seq::new(d@.len(), |i: int| d@[i].unwrap()@),
{
    let n = d.len();
    let mut out: Vec<String> = Vec::new();
    let mut i: usize = 0;
    while i < n
        invariant
            n == d@.len(),
            i <= n,
            out@.len() == i,
            forall|k: int| 0 <= k < i ==> (#[trigger] d@[k]) is Some,
            forall|k: int| 0 <= k < i ==> (#[trigger] out@[k])@ == d@[k].unwrap()@,
        decreases n - i,
    {
        match &d[i] {
            Some(s) => out.push(s.clone()),
            None => return None,
        }
        i = i + 1;
    }
    assert(views(out@) =~= Seq::new(d@.len(), |i: int| d@[i].unwrap()@));
    Some(out)
}

/// Resolve the dimension names of an array of rank `rank` from its native
/// `dimension_names` (Zarr v3 only) and its `_ARRAY_DIMENSIONS` attribute
/// (entries that are not strings given as `None`).
pub fn resolve_dimension_names(
    native: Option<Vec<Option<String>>>,
    attr: Option<Vec<Option<String>>>,
    rank: usize,
) -> (r: Vec<String>)
    ensures
        views(r@) == dimension_names_of(opt_vec_view(native), opt_vec_view(attr), rank as int),
{
    if let Some(dims) = &native {
        if dims.len() == rank {
            if let Some(names) = complete_names(dims) {
                return names;
            }
        }
    }
    if let Some(dims) = &attr {
        if dims.len() == rank {
            if let Some(names) = complete_names(dims) {
                return names;
            }
        }
    }
    let mut out: Vec<String> = Vec::new();
    let mut i: usize = 0;
    while i < rank
        invariant
            i <= rank,
            out@.len() == i,
            forall|k: int| 0 <= k < i ==> (#[trigger] out@[k])@ == positional_name(k),
        decreases rank - i,
    {
        let mut name: Vec<char> = Vec::new();
        push_str(&mut name, "dim_");
        push_decimal(&mut name, i as u64);
        out.push(string_of(name.as_slice()));
        i = i + 1;
    }
    assert(views(out@) =~= Seq::new(rank as nat, |i: int| positional_name(i)));
    out
}

/// Arrays of more than 16 dimensions are rejected.
pub fn check_rank(rank: usize) -> (r: Result<(), String>)
    ensures
        r is Ok <==> rank <= 16,
        r matches Err(e) ==> e@ == "Zarr array rank "@ + decimal(rank as nat)
            + " exceeds maximum supported dimensions (16)"@,
{
    if rank > 16 {
        let mut msg: Vec<char> = Vec::new();
        push_str(&mut msg, "Zarr array rank ");
        push_decimal(&mut msg, rank as u64);
        push_str(&mut msg, " exceeds maximum supported dimensions (16)");
        return Err(string_of(msg.as_slice()));
    }
    Ok(())
}

/// A dimension column is floating point when it has coordinate values or the
/// affine transform covers it; otherwise it holds the integer index.
pub open spec fn dim_is_float(name: Seq<char>, i: int, coord_names: Seq<Seq<char>>, transform_dims: Option<usize>) -> bool {
    coord_names.contains(name) || (match transform_dims {
        Some(k) => i < k,
        None => false,
    })
}

/// Column types of the dimension columns of a dataset's schema (`true` for
/// `DOUBLE`, `false` for `BIGINT`), given the names with coordinate arrays
/// and the number of dimensions the affine transform scales (if it has one).
pub fn dimension_columns(dim_names: &Vec<String>, coord_names: &Vec<String>, transform_dims: Option<usize>) -> (r: Vec<(String, bool)>)
    ensures
        r@.len() == dim_names@.len(),
        forall|i: int| 0 <= i < r@.len() ==> (#[trigger] r@[i]).0@ == dim_names@[i]@ && r@[i].1 == dim_is_float(
            dim_names@[i]@,
            i,
            views(coord_names@),
            transform_dims,
        ),
{
    let n = dim_names.len();
    let mut out: Vec<(String, bool)> = Vec::new();
    let mut i: usize = 0;
    while i < n
        invariant
            n == dim_names@.len(),
            i <= n,
            out@.len() == i,
            forall|j: int| 0 <= j < i ==> (#[trigger] out@[j]).0@ == dim_names@[j]@ && out@[j].1 == dim_is_float(
                dim_names@[j]@,
                j,
                views(coord_names@),
                transform_dims,
            ),
        decreases n - i,
    {
        let has_coords = crate::text::contains_name(coord_names.as_slice(), dim_names[i].as_str());
        let has_transform = match transform_dims {
            Some(k) => i < k,
            None => false,
        };
        out.push((dim_names[i].clone(), has_coords || has_transform));
        i = i + 1;
    }
    out
}

} // verus!

verus! {

/// Index `i` of an affine axis satisfies the query's lower bound: its
/// coordinate `translation + i * scale` is at least the bound, read off the
/// floor / ceiling of the bound's fractional index (`i >= ceil` when the scale
/// is positive, `i <= floor` when it is negative).
pub open spec fn grid_meets_low(positive: bool, low: Option<GridValue>, i: int) -> bool {
    match low {
        None => true,
        Some(g) => if positive { i >= g.ceil } else { i <= g.floor },
    }
}

/// Index `i` of an affine axis satisfies the query's upper bound: its
/// coordinate is at most the bound (`i <= floor` for a positive scale,
/// `i >= ceil` for a negative one).
pub open spec fn grid_meets_high(positive: bool, high: Option<GridValue>, i: int) -> bool {
    match high {
        None => true,
        Some(g) => if positive { i <= g.floor } else { i >= g.ceil },
    }
}

/// Floor and ceiling of one fractional index.
pub open spec fn grid_value_ok(g: Option<GridValue>) -> bool {
    match g {
        None => true,
        Some(g) => g.floor <= g.ceil,
    }
}

/// Pruning an affine axis never drops a cell the query asks for: every index
/// of the dimension whose coordinate satisfies the query's bounds lies within
/// the bounds computed for it, whichever the sign of the scale. In particular
/// a lower bound on a negative-scale axis caps the upper index bound.
pub proof fn lemma_grid_bounds_keep_matches(
    len: u64,
    positive: bool,
    low: Option<GridValue>,
    high: Option<GridValue>,
    i: int,
)
    requires
        grid_value_ok(low),
        grid_value_ok(high),
        0 <= i < len,
        grid_meets_low(positive, low, i),
        grid_meets_high(positive, high, i),
    ensures
        ({
            let b = dim_bounds(len, DimConstraint { pin: None, axis: Axis::Grid { positive, low, high } });
            b.0 <= i <= b.1
        }),
{
}

/// Pruning an affine axis keeps nothing more than one cell beyond what the
/// query asks for: every index within the computed bounds is in the
/// dimension and lies no further out than the floor / ceiling of each bound's
/// fractional index (or is index 0, where a bound before the axis clamps).
pub proof fn lemma_grid_bounds_tight(
    len: u64,
    positive: bool,
    low: Option<GridValue>,
    high: Option<GridValue>,
    i: int,
)
    requires
        ({
            let b = dim_bounds(len, DimConstraint { pin: None, axis: Axis::Grid { positive, low, high } });
            b.0 <= i <= b.1
        }),
    ensures
        0 <= i <= full_max(len),
        low matches Some(g) ==> if positive { i >= g.floor } else { i <= g.ceil || i == 0 },
        high matches Some(g) ==> if positive { i <= g.ceil || i == 0 } else { i >= g.floor },
{
}

} // verus!

verus! {

/// Pruning a sorted coordinate axis never drops a cell the query asks for:
/// every index of the dimension whose coordinate (order key) is at least the
/// query minimum and at most the query maximum lies within the bounds
/// computed for it, whether the coordinates ascend or descend.
pub proof fn lemma_coord_bounds_keep_matches(
    len: u64,
    keys: Vec<i64>,
    lower: Option<FilterValue>,
    upper: Option<FilterValue>,
    i: int,
)
    requires
        ascending(keys@) || descending(keys@),
        0 <= i < len,
        i < keys@.len(),
        lower matches Some(v) ==> keys@[i] >= v.key,
        upper matches Some(v) ==> keys@[i] <= v.key,
    ensures
        ({
            let b = dim_bounds(len, DimConstraint { pin: None, axis: Axis::Coords { keys, lower, upper } });
            b.0 <= i <= b.1
        }),
{
    let k = keys@;
    let full = (0int, full_max(len));
    let b1 = coords_min_step(k, lower, full);
    if lower is Some {
        lemma_filter_range_exact(k, 2, lower->0, full.0, full.1, i);
    }
    assert(b1.0 <= i <= b1.1);
    if upper is Some {
        lemma_filter_range_exact(k, 4, upper->0, b1.0, b1.1, i);
    }
}

} // verus!

verus! {

/// A pinned dimension is read at exactly one index: the pin itself when it
/// lies in the dimension, else the last index; whatever the axis says.
pub proof fn lemma_pinned_dimension(len: u64, pin: u64, axis: Axis)
    requires
        len > 0,
    ensures
        ({
            let b = dim_bounds(len, DimConstraint { pin: Some(pin), axis });
            &&& b.0 == b.1
            &&& 0 <= b.0 < len
            &&& pin < len ==> b.0 == pin
            &&& pin >= len ==> b.0 == len - 1
        }),
{
}

} // verus!
