//! Which coordinate arrays label the dimensions of an array, and where else
//! to look for the ones its own group lacks.

use vstd::prelude::*;
use crate::text::{chars_of, eq_str, last_index, rfind_char, slice_to_vec_chars, string_of, trim_end_char, trim_end_matches, views};

verus! {

/// Largest coordinate array read (exclusive).
pub const MAX_COORD_LEN: u64 = 1_000_000;

/// Resolves the coordinate values of an array's dimensions.
pub struct CoordinateResolver;

/// The parent of a path: everything before its last `/` once trailing `/`s
/// are dropped.
pub open spec fn parent_of(path: Seq<char>) -> Option<Seq<char>> {
    let t = trim_end_char(path, '/');
    match last_index(t, '/') {
        Some(i) => Some(t.take(i)),
        None => None,
    }
}

/// A dimension holding longitudes, whose values may run over 0..360.
pub open spec fn longitude_name(n: Seq<char>) -> bool {
    n == "lon"@ || n == "longitude"@
}

impl CoordinateResolver {
    /// The group one level up from `path`, where coordinate arrays missing
    /// beside the array are looked for.
    pub fn parent_path(path: &str) -> (r: Option<String>)
        ensures
            match r {
                Some(p) => parent_of(path@) == Some(p@),
                None => parent_of(path@) is None,
            },
    {
        let t = trim_end_matches(chars_of(path).as_slice(), '/');
        match rfind_char(t.as_slice(), '/') {
            Some(i) => {
                let p = slice_to_vec_chars(t.as_slice(), 0, i);
                Some(string_of(p.as_slice()))
            },
            None => None,
        }
    }

    /// Whether a dimension of this name holds longitudes.
    pub fn is_longitude(name: &str) -> (r: bool)
        ensures
            r == longitude_name(name@),
    {
        let c = chars_of(name);
        eq_str(c.as_slice(), "lon") || eq_str(c.as_slice(), "longitude")
    }

    /// A coordinate array is read when it is one-dimensional and shorter than
    /// `MAX_COORD_LEN`.
    pub fn readable_shape(shape: &[u64]) -> (r: bool)
        ensures
            r == (shape@.len() == 1 && shape@[0] < MAX_COORD_LEN),
    {
        shape.len() == 1 && shape[0] < MAX_COORD_LEN
    }

    /// Indices of the dimensions that no resolved coordinate array names.
    pub fn missing_dims(dim_names: &Vec<String>, resolved: &Vec<String>) -> (r: Vec<usize>)
        ensures
            forall|k: int| 0 <= k < r@.len() ==> (#[trigger] r@[k]) < dim_names@.len(),
            forall|k: int, l: int| 0 <= k < l < r@.len() ==> r@[k] < r@[l],
            forall|i: int| 0 <= i < dim_names@.len() ==> (r@.contains(i as usize) <==> !views(resolved@).contains(
                (#[trigger] dim_names@[i])@,
            )),
    {
        let n = dim_names.len();
        let mut out: Vec<usize> = Vec::new();
        let mut i: usize = 0;
        while i < n
            invariant
                n == dim_names@.len(),
                i <= n,
                forall|k: int| 0 <= k < out@.len() ==> (#[trigger] out@[k]) < i,
                forall|k: int, l: int| 0 <= k < l < out@.len() ==> out@[k] < out@[l],
                forall|j: int| 0 <= j < i ==> (out@.contains(j as usize) <==> !views(resolved@).contains((#[trigger] dim_names@[j])@)),
            decreases n - i,
        {
            let found = crate::text::contains_name(resolved.as_slice(), dim_names[i].as_str());
            if !found {
                let ghost before = out@;
                out.push(i);
                assert forall|j: usize| j < n implies (#[trigger] out@.contains(j) <==> (before.contains(j) || j == i)) by {
                    if out@.contains(j) {
                        let k = choose|k: int| 0 <= k < out@.len() && out@[k] == j;
                        if k < before.len() {
                            assert(before[k] == j);
                        }
                    }
                    if j == i {
                        assert(out@[before.len() as int] == i);
                    }
                    if before.contains(j) {
                        let k = choose|k: int| 0 <= k < before.len() && before[k] == j;
                        assert(out@[k] == j);
                    }
                }
            }
            i = i + 1;
        }
        out
    }
}

} // verus!
