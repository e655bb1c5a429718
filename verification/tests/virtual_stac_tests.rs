use geozarr_core::cog::CogMetadata;
use geozarr_core::virtual_stac::{
    coord_zarray, validate_grid_uniform, GroupRead, StackAsset, StackRead, StacGroupLayout, TimeStackLayout,
};
use geozarr_core::virtual_store::{CogLayout, TransformText};

fn s(x: &str) -> String {
    x.to_string()
}

fn child_meta() -> CogMetadata {
    CogMetadata {
        image_width: 4,
        image_length: 2,
        tile_width: 4,
        tile_length: 2,
        tile_offsets: vec![0],
        tile_byte_counts: vec![16],
        is_little_endian: true,
        bits_per_sample: 16,
        sample_format: 2,
        samples_per_pixel: 1,
        compression: 1,
        predictor: 1,
        epsg: Some(4326),
        ..Default::default()
    }
}

fn child() -> CogLayout {
    let t = TransformText { scale: (s("-2"), s("2")), translation: (s("89"), s("-179")) };
    CogLayout::new(child_meta(), None, Some(t)).unwrap()
}

fn group() -> StacGroupLayout {
    let c = child();
    StacGroupLayout::new(&vec![(s("band"), c.zarray.clone(), c.zattrs.clone())])
}

#[test]
fn zmetadata_includes_child_zattrs() {
    let zmeta = group().zmetadata;
    assert!(zmeta.contains("band/.zarray"));
    assert!(zmeta.contains("band/.zattrs"), "group metadata must carry child .zattrs: {zmeta}");
    assert!(zmeta.contains("spatial_transform"));
}

#[test]
fn group_metadata_is_consolidated_json() {
    let g = group();
    assert_eq!(g.zgroup, "{\"zarr_format\": 2}");
    let v: serde_json::Value = serde_json::from_str(&g.zmetadata).unwrap();
    assert_eq!(v["zarr_consolidated_format"], serde_json::Value::from(1));
    assert_eq!(v["metadata"][".zgroup"]["zarr_format"], serde_json::Value::from(2));
    assert_eq!(v["metadata"]["band/.zarray"]["shape"], serde_json::Value::from(vec![2, 4]));
    assert_eq!(v["metadata"]["band/.zattrs"]["geozarr"]["crs"], serde_json::Value::from("EPSG:4326"));
    // Members come in the order they were set.
    let a = g.zmetadata.find("\".zgroup\"").unwrap();
    let b = g.zmetadata.find("\"band/.zarray\"").unwrap();
    let c = g.zmetadata.find("\"band/.zattrs\"").unwrap();
    assert!(a < b && b < c);
}

#[test]
fn routes_child_zattrs_key() {
    let g = group();
    match g.locate("band/.zattrs") {
        GroupRead::Child(i, k) => {
            assert_eq!(i, 0);
            assert_eq!(k, ".zattrs");
        },
        _ => panic!("band/.zattrs must route to the child"),
    }
    assert!(matches!(g.locate(".zgroup"), GroupRead::ZGroup));
    assert!(matches!(g.locate(".zmetadata"), GroupRead::ZMetadata));
    assert!(matches!(g.locate("other/.zattrs"), GroupRead::Missing));
    assert!(matches!(g.locate("band"), GroupRead::Missing));
}

#[test]
fn group_asset_names_sorted() {
    let c = child();
    let g = StacGroupLayout::new(&vec![
        (s("red"), c.zarray.clone(), c.zattrs.clone()),
        (s("blue"), c.zarray.clone(), c.zattrs.clone()),
    ]);
    assert_eq!(g.asset_names(), vec![s("blue"), s("red")]);
}

fn stack() -> TimeStackLayout {
    let assets = vec![StackAsset { name: s("band"), items: 2, dtype: s("<i2"), fill: s("0"), tile: (2, 4) }];
    TimeStackLayout::new(&assets, 2, 2, 4, (s("lat"), s("lon"))).unwrap()
}

#[test]
fn asset_zarray_is_3d() {
    let st = stack();
    let z = &st.asset_zarray[0];
    assert!(z.contains("\"shape\":[2,2,4]"), "{z}");
    assert!(z.contains("\"chunks\":[1,2,4]"), "{z}");
    assert!(z.contains("\"<i2\""), "{z}");
    assert!(matches!(st.locate("band/.zarray"), StackRead::AssetZarray(0)));
}

#[test]
fn time_coord_array_roundtrips() {
    let st = stack();
    match st.locate("time/.zarray") {
        StackRead::CoordZarray(i) => {
            let za = &st.coord_zarray[i];
            assert!(za.contains("\"shape\":[2]") && za.contains("\"<f8\""));
        },
        _ => panic!("time/.zarray must be the time coordinate"),
    }
    assert!(matches!(st.locate("time/0"), StackRead::CoordData(0)));
    assert!(matches!(st.locate("lat/0"), StackRead::CoordData(1)));
    assert!(matches!(st.locate("lon/.zarray"), StackRead::CoordZarray(2)));
    assert_eq!(
        coord_zarray(4),
        r#"{"zarr_format":2,"shape":[4],"chunks":[4],"dtype":"<f8","compressor":null,"fill_value":0.0,"filters":null,"order":"C"}"#
    );
}

#[test]
fn chunk_routes_to_item() {
    let st = stack();
    match st.locate("band/0.0.0") {
        StackRead::Chunk(a, t, k) => assert_eq!((a, t, k.as_str()), (0, 0, "0.0")),
        _ => panic!("band/0.0.0 must route to item 0"),
    }
    match st.locate("band/1.0.0") {
        StackRead::Chunk(a, t, k) => assert_eq!((a, t, k.as_str()), (0, 1, "0.0")),
        _ => panic!("band/1.0.0 must route to item 1"),
    }
    assert!(matches!(st.locate("band/9.0.0"), StackRead::Missing));
}

#[test]
fn zattrs_dims_are_time_lat_lon() {
    let st = stack();
    let za = &st.asset_zattrs[0];
    assert!(za.contains("_ARRAY_DIMENSIONS") && za.contains("time") && za.contains("lat") && za.contains("lon"));
    assert!(matches!(st.locate("band/.zattrs"), StackRead::AssetZattrs(0)));
}

#[test]
fn stack_metadata_and_errors() {
    let st = stack();
    let v: serde_json::Value = serde_json::from_str(&st.zmetadata).unwrap();
    for k in [".zgroup", "band/.zarray", "band/.zattrs", "time/.zarray", "lat/.zarray", "lon/.zarray"] {
        assert!(v["metadata"].get(k).is_some(), "missing {k}");
    }
    assert_eq!(v["metadata"]["lat/.zarray"]["shape"], serde_json::Value::from(vec![2]));
    // Members keep the order they were set in: group, assets, then time, lat, lon.
    let pos: Vec<usize> = [".zgroup", "band/.zarray", "band/.zattrs", "time/.zarray", "lat/.zarray", "lon/.zarray"]
        .iter()
        .map(|k| st.zmetadata.find(&format!("\"{k}\"")).unwrap())
        .collect();
    for w in pos.windows(2) {
        assert!(w[0] < w[1], "members out of order: {}", st.zmetadata);
    }
    assert_eq!(st.asset_names(), vec![s("band")]);
    assert_eq!(
        TimeStackLayout::new(&vec![], 2, 2, 4, (s("lat"), s("lon"))).err().unwrap(),
        "time-stack has no assets"
    );
    let short = vec![StackAsset { name: s("band"), items: 1, dtype: s("<i2"), fill: s("0"), tile: (2, 4) }];
    assert_eq!(
        TimeStackLayout::new(&short, 2, 2, 4, (s("lat"), s("lon"))).err().unwrap(),
        "asset band: 1 items, expected 2"
    );
}

fn m(w: u32, h: u32, epsg: Option<u32>) -> CogMetadata {
    CogMetadata {
        image_width: w,
        image_length: h,
        tile_width: w,
        tile_length: h,
        is_little_endian: true,
        bits_per_sample: 16,
        sample_format: 2,
        samples_per_pixel: 1,
        compression: 1,
        predictor: 1,
        epsg,
        ..Default::default()
    }
}

#[test]
fn uniformity_passes_for_identical_and_fails_on_mismatch() {
    let a = m(4, 2, Some(4326));
    let b = m(4, 2, Some(4326));
    assert!(validate_grid_uniform(&[&a, &b], &[true, true]).is_ok());
    let diff_shape = m(8, 2, Some(4326));
    let e = validate_grid_uniform(&[&a, &diff_shape], &[true, true]).unwrap_err();
    assert!(e.contains("shape") || e.contains("1"), "{e}");
    let diff_crs = m(4, 2, Some(32633));
    assert!(validate_grid_uniform(&[&a, &diff_crs], &[true, true]).is_err());
}

#[test]
fn uniformity_messages() {
    let a = m(4, 2, Some(4326));
    assert_eq!(validate_grid_uniform(&[&a, &m(8, 2, Some(4326))], &[true, true]).unwrap_err(), "item 1: shape 2x8 != 2x4");
    let mut t = m(4, 2, Some(4326));
    t.tile_width = 2;
    assert_eq!(validate_grid_uniform(&[&a, &t], &[true, true]).unwrap_err(), "item 1: tile shape differs");
    assert_eq!(
        validate_grid_uniform(&[&a, &m(4, 2, None)], &[true, true]).unwrap_err(),
        "item 1: CRS None != Some(\"EPSG:4326\")"
    );
    assert_eq!(
        validate_grid_uniform(&[&a, &a, &a], &[true, true, false]).unwrap_err(),
        "item 2: affine transform differs"
    );
    let none: [&CogMetadata; 0] = [];
    assert!(validate_grid_uniform(&none, &[]).is_ok());
}
