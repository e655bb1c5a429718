use geozarr_core::dataset::{compute_bounds, Axis, DimConstraint, GridValue};
use geozarr_core::query_planner::{translate_filter, FilterValue, Plan, QueryBounds};
use geozarr_core::scanner::{plan_chunk_subset, GridIterator, SubsetInfo};

/// Order key of a non-NaN float: integers that compare as the values do.
fn key(x: f64) -> i64 {
    let x = if x == 0.0 { 0.0 } else { x };
    let b = x.to_bits() as i64;
    if b < 0 {
        b ^ i64::MAX
    } else {
        b
    }
}

fn fv(v: f64) -> FilterValue {
    FilterValue { key: key(v), tol_low: key(v - 1e-8), tol_high: key(v + 1e-8) }
}

fn keys(c: &[f64]) -> Vec<i64> {
    c.iter().map(|x| key(*x)).collect()
}

#[test]
fn test_grid_iterator_get_chunk_pos() {
    let bounds_min = vec![2, 5, 1];
    let bounds_max = vec![12, 15, 3];
    let shape = vec![20, 20, 20];
    let chunk_shape = vec![4, 4, 2];
    let mut it = GridIterator::new(&bounds_min, &bounds_max, &shape, &chunk_shape);
    let mut expected = Vec::new();
    while let Some(pos) = it.next() {
        expected.push(pos);
    }
    let num_chunks = expected.len() as u64;
    let actual: Vec<_> = (0..num_chunks).map(|i| it.get_chunk_pos(i)).collect();
    assert_eq!(actual, expected);
}

#[test]
fn grid_iterator_visits_every_chunk_once_in_order() {
    // Chunks 0..=3 on dim 0 (indices 2..=12 in chunks of 4), 1..=3 on dim 1,
    // 0..=1 on dim 2: 4 * 3 * 2 = 24 chunks, last dimension fastest.
    let mut it = GridIterator::new(&[2, 5, 1], &[12, 15, 3], &[20, 20, 20], &[4, 4, 2]);
    let mut all = Vec::new();
    while let Some(p) = it.next() {
        all.push(p);
    }
    assert_eq!(all.len(), 24);
    assert_eq!(all[0], vec![0, 1, 0]);
    assert_eq!(all[1], vec![0, 1, 1]);
    assert_eq!(all[2], vec![0, 2, 0]);
    assert_eq!(all[23], vec![3, 3, 1]);
    assert!(it.next().is_none());
}

#[test]
fn subset_of_a_chunk() {
    // Chunk (1, 1) of a 5x5 grid of 2x2 chunks, bounds [1..=3, 1..=3].
    let (start, info) = plan_chunk_subset(&[1, 1], &[2, 2], &[1, 1], &[3, 3]);
    assert_eq!(start, vec![0, 0]);
    assert_eq!(info.global_starts, vec![2, 2]);
    assert_eq!(info.shape, vec![2, 2]);
    assert_eq!(info.strides, vec![2, 1]);
    let (start, info) = plan_chunk_subset(&[0, 0], &[2, 2], &[1, 1], &[3, 3]);
    assert_eq!(start, vec![1, 1]);
    assert_eq!(info.shape, vec![1, 1]);
}

#[test]
fn global_coord_of_offsets() {
    let info = SubsetInfo { global_starts: vec![1, 1], shape: vec![3, 3], strides: vec![3, 1] };
    assert_eq!(info.global_coord(0, 0), 1);
    assert_eq!(info.global_coord(1, 0), 1);
    assert_eq!(info.global_coord(0, 4), 2);
    assert_eq!(info.global_coord(1, 4), 2);
    assert_eq!(info.global_coord(0, 8), 3);
    assert_eq!(info.global_coord(1, 8), 3);
}

#[test]
fn test_translate_filter() {
    let coords = keys(&[0.0, 10.0, 20.0, 30.0, 40.0, 50.0]);
    assert_eq!(translate_filter(&coords, "=", fv(20.0), 0, 5), (2, 2));
    assert_eq!(translate_filter(&coords, "<", fv(25.0), 0, 5), (0, 2));
    assert_eq!(translate_filter(&coords, ">=", fv(30.0), 0, 5), (3, 5));
    let coords_desc = keys(&[50.0, 40.0, 30.0, 20.0, 10.0, 0.0]);
    assert_eq!(translate_filter(&coords_desc, "=", fv(20.0), 0, 5), (3, 3));
    assert_eq!(translate_filter(&coords_desc, "<", fv(25.0), 0, 5), (3, 5));
    assert_eq!(translate_filter(&coords_desc, ">=", fv(30.0), 0, 5), (0, 2));
    assert_eq!(translate_filter(&coords_desc, ">", fv(45.0), 0, 5), (0, 0));
    assert_eq!(translate_filter(&coords_desc, "<=", fv(10.0), 0, 5), (4, 5));
}

#[test]
fn translate_filter_edges() {
    let coords = keys(&[0.0, 10.0, 20.0]);
    // No match is the empty range (1, 0).
    assert_eq!(translate_filter(&coords, ">", fv(25.0), 0, 2), (1, 0));
    assert_eq!(translate_filter(&coords, "<", fv(-1.0), 0, 2), (1, 0));
    assert_eq!(translate_filter(&coords, "=", fv(5.0), 0, 2), (1, 0));
    // The current range narrows the result.
    assert_eq!(translate_filter(&coords, ">=", fv(0.0), 1, 1), (1, 1));
    // Unknown operator or no coordinates leave the range as it is.
    assert_eq!(translate_filter(&coords, "!=", fv(10.0), 0, 2), (0, 2));
    assert_eq!(translate_filter(&[], ">", fv(10.0), 3, 7), (3, 7));
    // Negative coordinates order correctly.
    let neg = keys(&[-30.0, -20.0, -10.0, 0.0]);
    assert_eq!(translate_filter(&neg, "<=", fv(-15.0), 0, 3), (0, 1));
}

#[test]
fn bounds_prune_coordinate_axes() {
    let lat = DimConstraint {
        pin: None,
        axis: Axis::Coords { keys: keys(&[0.0, 10.0, 20.0, 30.0]), lower: Some(fv(10.0)), upper: Some(fv(20.0)) },
    };
    let time = DimConstraint { pin: Some(2), axis: Axis::Index };
    let lon = DimConstraint { pin: None, axis: Axis::Index };
    let (lo, hi) = compute_bounds(&[5, 4, 8], &[time, lat, lon]);
    assert_eq!(lo, vec![2, 1, 0]);
    assert_eq!(hi, vec![2, 2, 7]);
}

#[test]
fn bounds_on_affine_axes() {
    let x = DimConstraint {
        pin: None,
        axis: Axis::Grid {
            positive: true,
            low: Some(GridValue { floor: 2, ceil: 3 }),
            high: Some(GridValue { floor: 6, ceil: 7 }),
        },
    };
    let (lo, hi) = compute_bounds(&[10], &[x]);
    assert_eq!((lo[0], hi[0]), (2, 7));
}

#[test]
fn plan_holds_bounds() {
    let p = Plan { bounds: QueryBounds { bounds_min: vec![0, 1], bounds_max: vec![3, 4] } };
    assert_eq!(p.bounds.bounds_min, vec![0, 1]);
    assert_eq!(p.bounds.bounds_max, vec![3, 4]);
}

#[test]
fn unsorted_coordinates_keep_range_for_unknown_operator() {
    let coords = keys(&[20.0, 0.0, 30.0, 10.0]);
    assert_eq!(translate_filter(&coords, "!=", fv(10.0), 1, 2), (1, 2));
    assert_eq!(translate_filter(&coords, "", fv(10.0), 0, 3), (0, 3));
}

#[test]
fn pins_and_unbounded_axes_on_unsorted_coordinates() {
    let unsorted = || keys(&[20.0, 0.0, 30.0, 10.0]);
    let pinned = DimConstraint { pin: Some(9), axis: Axis::Coords { keys: unsorted(), lower: Some(fv(5.0)), upper: None } };
    let free = DimConstraint { pin: None, axis: Axis::Coords { keys: unsorted(), lower: None, upper: None } };
    let (lo, hi) = compute_bounds(&[4, 4], &[pinned, free]);
    assert_eq!(lo, vec![3, 0]);
    assert_eq!(hi, vec![3, 3]);
}

#[test]
fn grid_walk_is_increasing_and_covers_the_box() {
    let mut it = GridIterator::new(&[2, 5, 1], &[12, 15, 3], &[20, 20, 20], &[4, 4, 2]);
    let mut all = Vec::new();
    while let Some(p) = it.next() {
        all.push(p);
    }
    for w in all.windows(2) {
        assert!(w[0] < w[1], "{:?} !< {:?}", w[0], w[1]);
    }
    let mut expected = Vec::new();
    for a in 0..=3u64 {
        for b in 1..=3u64 {
            for c in 0..=1u64 {
                expected.push(vec![a, b, c]);
            }
        }
    }
    assert_eq!(all, expected);
}

#[test]
fn chunk_pos_repeats_with_the_chunk_count() {
    let it = GridIterator::new(&[2, 5, 1], &[12, 15, 3], &[20, 20, 20], &[4, 4, 2]);
    for i in 0..24u64 {
        assert_eq!(it.get_chunk_pos(i + 24), it.get_chunk_pos(i));
        assert_eq!(it.get_chunk_pos(i + 48), it.get_chunk_pos(i));
    }
    assert_eq!(it.get_chunk_pos(24), vec![0, 1, 0]);
}

#[test]
fn global_coords_recompose_the_offset() {
    let (_, info) = plan_chunk_subset(&[0, 1, 0], &[4, 4, 4], &[1, 5, 0], &[2, 7, 3]);
    assert_eq!(info.shape, vec![2, 3, 4]);
    let mut seen = Vec::new();
    for p in 0..24u64 {
        let c: Vec<u64> = (0..3).map(|d| info.global_coord(d, p)).collect();
        for d in 0..3 {
            assert!(info.global_starts[d] <= c[d] && c[d] < info.global_starts[d] + info.shape[d]);
        }
        let back: u64 = (0..3).map(|d| (c[d] - info.global_starts[d]) * info.strides[d]).sum();
        assert_eq!(back, p);
        seen.push(c);
    }
    assert_eq!(seen[0], vec![1, 5, 0]);
    assert_eq!(seen[23], vec![2, 7, 3]);
}

#[test]
fn subset_reads_only_the_rank_of_the_chunk_shape() {
    // Position and bound slices longer than the chunk shape: the extra entries are ignored.
    let (start, info) = plan_chunk_subset(&[1, 1, 7], &[2, 2], &[1, 1, 0], &[3, 3, 0]);
    assert_eq!(start, vec![0, 0]);
    assert_eq!(info.global_starts, vec![2, 2]);
    assert_eq!(info.shape, vec![2, 2]);
    assert_eq!(info.strides, vec![2, 1]);
}
