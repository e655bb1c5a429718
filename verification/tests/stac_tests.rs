use geozarr_core::stac::{
    assemble_time_stack, asset_hrefs, cog_asset_names, feature_asset_href, rfc3339_to_epoch_seconds,
    sort_names, sorted_features_by_datetime, StacAsset, StacFeature,
};

fn s(x: &str) -> String {
    x.to_string()
}

fn asset(name: &str, t: Option<&str>, href: Option<&str>) -> StacAsset {
    StacAsset { name: s(name), media_type: t.map(s), href: href.map(s) }
}

fn feature(id: &str, dt: Option<&str>, assets: Vec<StacAsset>) -> StacFeature {
    StacFeature { id: Some(s(id)), datetime: dt.map(s), assets: Some(assets) }
}

#[test]
fn parses_utc_z() {
    assert_eq!(rfc3339_to_epoch_seconds("2026-01-01T00:00:00Z").unwrap() as f64, 1767225600.0);
}

#[test]
fn parses_offset() {
    assert_eq!(rfc3339_to_epoch_seconds("2026-01-01T01:00:00+01:00").unwrap() as f64, 1767225600.0);
}

#[test]
fn rejects_garbage() {
    assert!(rfc3339_to_epoch_seconds("not-a-date").is_err());
    assert!(rfc3339_to_epoch_seconds("").is_err());
}

#[test]
fn datetime_tolerates_surrounding_space_and_names_input() {
    assert_eq!(rfc3339_to_epoch_seconds("  2026-01-01T00:00:00Z \n").unwrap(), 1767225600);
    let e = rfc3339_to_epoch_seconds("soon").unwrap_err();
    assert!(e.starts_with("invalid RFC3339 datetime \"soon\": "), "{e}");
}

#[test]
fn features_sorted_by_time_stably() {
    let fs = vec![
        feature("b", Some("2026-01-03T00:00:00Z"), vec![]),
        feature("a", Some("2026-01-01T00:00:00Z"), vec![]),
        feature("c", Some("2026-01-03T00:00:00Z"), vec![]),
    ];
    let order = sorted_features_by_datetime(Some(&fs)).unwrap();
    let idx: Vec<usize> = order.iter().map(|p| p.1).collect();
    assert_eq!(idx, vec![1, 0, 2]);
    assert_eq!(order[0].0, 1767225600);
}

#[test]
fn empty_collection_errors() {
    assert_eq!(
        sorted_features_by_datetime(Some(&vec![])).unwrap_err(),
        "STAC FeatureCollection has no features (empty)"
    );
    assert_eq!(sorted_features_by_datetime(None).unwrap_err(), "STAC FeatureCollection has no features array");
}

#[test]
fn missing_datetime_errors() {
    let fs = vec![
        feature("ok", Some("2026-01-01T00:00:00Z"), vec![]),
        feature("item-2", None, vec![]),
    ];
    let e = sorted_features_by_datetime(Some(&fs)).unwrap_err();
    assert_eq!(e, "STAC item item-2: missing properties.datetime");
    let anon = vec![StacFeature { id: None, datetime: None, assets: None }];
    assert_eq!(
        sorted_features_by_datetime(Some(&anon)).unwrap_err(),
        "STAC item <no id>: missing properties.datetime"
    );
}

#[test]
fn cog_assets_sorted() {
    let f = feature(
        "x",
        None,
        vec![
            asset("red", Some("image/tiff"), Some("r.tif")),
            asset("meta", Some("application/json"), Some("m.json")),
            asset("blue", None, Some("b.tif")),
        ],
    );
    assert_eq!(cog_asset_names(&f).unwrap(), vec![s("blue"), s("red")]);
    let none = feature("y", None, vec![asset("meta", Some("application/json"), Some("m.json"))]);
    assert_eq!(cog_asset_names(&none).unwrap_err(), "STAC FeatureCollection has no COG assets");
    let bare = StacFeature { id: None, datetime: None, assets: None };
    assert_eq!(cog_asset_names(&bare).unwrap_err(), "STAC item has no assets");
}

#[test]
fn asset_href_lookup() {
    let f = feature("x", None, vec![asset("red", None, Some("r.tif")), asset("nir", None, None)]);
    assert_eq!(feature_asset_href(&f, "red").unwrap(), "r.tif");
    assert_eq!(feature_asset_href(&f, "nir").unwrap_err(), "STAC feature asset nir missing href");
    assert_eq!(feature_asset_href(&f, "swir").unwrap_err(), "STAC feature missing asset swir");
    let bare = StacFeature { id: None, datetime: None, assets: None };
    assert_eq!(feature_asset_href(&bare, "red").unwrap_err(), "STAC feature has no assets");
}

#[test]
fn hrefs_in_time_order() {
    let fs = vec![
        feature("t2", Some("2026-01-02T00:00:00Z"), vec![asset("red", None, Some("2/r.tif"))]),
        feature("t1", Some("2026-01-01T00:00:00Z"), vec![asset("red", None, Some("https://o/1/r.tif"))]),
    ];
    let order = sorted_features_by_datetime(Some(&fs)).unwrap();
    let names = cog_asset_names(&fs[order[0].1]).unwrap();
    let h = asset_hrefs("https://h/col/search", &fs, &order, &names).unwrap();
    assert_eq!(h, vec![vec![s("https://o/1/r.tif"), s("https://h/col/2/r.tif")]]);
}

#[test]
fn children_reassembled_by_slot() {
    let names = vec![s("red"), s("nir")];
    let built = vec![(1, 1), (0, 1), (0, 0), (1, 0)];
    let slots = assemble_time_stack(&names, 2, &built).unwrap();
    assert_eq!(slots, vec![vec![2, 1], vec![3, 0]]);
    let partial = vec![(0, 0), (0, 1), (1, 0)];
    let e = assemble_time_stack(&names, 2, &partial).unwrap_err();
    assert_eq!(e, "STAC FeatureCollection: missing asset \"nir\" on some item");
}

#[test]
fn names_sort_ascending() {
    assert_eq!(sort_names(vec![s("b"), s("a"), s("B"), s("a")]), vec![s("B"), s("a"), s("a"), s("b")]);
}
