use geozarr_core::coordinate_resolver::CoordinateResolver;
use geozarr_core::feature_collection::{build_stac_url, FeatureCollectionDataset};
use geozarr_core::geo_dataset::GeoDatasetError;
use geozarr_core::guard::ensure_read_only;
use geozarr_core::metadata::{GeoZarrMetadata, SpatialReference};
use geozarr_core::tools::{
    describe_dataset_sql, describe_table_sql, esc, estimate_cost_sql, is_truncated, list_tables_sql, plan_result,
    pushdown_args, read_region_sql, result_limit, BboxArgs, TimeArgs,
};

fn s(x: &str) -> String {
    x.to_string()
}

#[test]
fn allows_select() {
    assert!(ensure_read_only("SELECT 1").is_ok());
}

#[test]
fn allows_with_and_temp() {
    assert!(ensure_read_only("WITH a AS (SELECT 1) SELECT * FROM a").is_ok());
    assert!(ensure_read_only("CREATE TEMP TABLE t AS SELECT 1").is_ok());
}

#[test]
fn rejects_writes_and_installs() {
    for q in [
        "COPY t TO 'x.parquet'",
        "INSTALL foo",
        "ATTACH 'x.db'",
        "DELETE FROM t",
        "DROP TABLE t",
        "CREATE TABLE t AS SELECT 1",
        "SELECT 1; DROP TABLE t",
    ] {
        assert!(ensure_read_only(q).is_err(), "should reject: {q}");
    }
}

#[test]
fn test_open_feature_collection() {
    let ds = FeatureCollectionDataset::open("https://example.com/stac").unwrap();
    assert_eq!(ds.url, "https://example.com/stac");
    assert_eq!(ds.asset_name, "swir22");
}

#[test]
fn test_stac_filter_pushdown() {
    let lat = (Some(format!("{}", 40.0)), Some(format!("{}", 45.0)));
    let lon = (Some(format!("{}", -10.0)), Some(format!("{}", 10.0)));
    let url = build_stac_url("https://example.com/search", &lat, &lon);
    assert!(url.contains("bbox=-10,40,10,45"));
    assert_eq!(url, "https://example.com/search?bbox=-10,40,10,45");
    let url = build_stac_url("https://example.com/search?limit=5", &lat, &lon);
    assert_eq!(url, "https://example.com/search?limit=5&bbox=-10,40,10,45");
    let url = build_stac_url("https://example.com/search", &(None, Some(s("45"))), &lon);
    assert_eq!(url, "https://example.com/search");
}

#[test]
fn test_parse_crs_from_spatial_reference() {
    let meta = GeoZarrMetadata { crs: None, spatial_reference: Some(SpatialReference { crs: Some(s("EPSG:4326")) }) };
    assert_eq!(meta.resolved_crs(), Some(s("EPSG:4326")));
}

#[test]
fn test_resolved_crs_prefers_flat_then_nested() {
    let flat = GeoZarrMetadata { crs: Some(s("EPSG:3857")), spatial_reference: None };
    assert_eq!(flat.resolved_crs(), Some(s("EPSG:3857")));
    let none = GeoZarrMetadata { crs: None, spatial_reference: None };
    assert_eq!(none.resolved_crs(), None);
    let both = GeoZarrMetadata {
        crs: Some(s("EPSG:3857")),
        spatial_reference: Some(SpatialReference { crs: Some(s("EPSG:4326")) }),
    };
    assert_eq!(both.resolved_crs(), Some(s("EPSG:3857")));
}

#[test]
fn quoting_and_pushdown() {
    assert_eq!(esc("it's"), "it''s");
    let bbox = BboxArgs { lon_min: Some(s("1")), lat_min: Some(s("2")), lon_max: None, lat_max: Some(s("4")) };
    let time = TimeArgs { min: Some(s("0")), max: None };
    assert_eq!(
        pushdown_args(Some(&bbox), Some(&time), Some("a'b")),
        ", lon_min := 1, lat_min := 2, lat_max := 4, time_min := 0, asset := 'a''b'"
    );
    assert_eq!(pushdown_args(None, None, None), "");
    assert_eq!(describe_dataset_sql("/d/x.zarr"), "SELECT * FROM read_zarr_metadata('/d/x.zarr')");
    assert_eq!(estimate_cost_sql("o'k", None, Some(&time)), "SELECT * FROM plan_read_geo('o''k', time_min := 0)");
    assert_eq!(read_region_sql("u", None, None, Some("red")), "SELECT * FROM read_geo('u', asset := 'red')");
    assert_eq!(list_tables_sql(), "SELECT table_name FROM information_schema.tables ORDER BY table_name");
}

#[test]
fn table_names_are_validated() {
    assert_eq!(
        describe_table_sql("mcp_result_3").unwrap(),
        (s("DESCRIBE mcp_result_3"), s("SELECT * FROM mcp_result_3 LIMIT 5"))
    );
    assert_eq!(describe_table_sql("").unwrap_err(), "invalid table name");
    assert_eq!(describe_table_sql("t; DROP TABLE x").unwrap_err(), "invalid table name");
    assert!(describe_table_sql("température").is_ok());
}

#[test]
fn result_plans() {
    let p = plan_result(7, "SELECT 1", 5);
    assert_eq!(p.handle, "mcp_result_7");
    assert_eq!(p.create_sql, "CREATE TEMP TABLE mcp_result_7 AS SELECT 1");
    assert_eq!(p.count_sql, "SELECT count(*) FROM mcp_result_7");
    assert_eq!(p.head_sql, "SELECT * FROM mcp_result_7 LIMIT 5");
    assert!(is_truncated(6, 5));
    assert!(!is_truncated(5, 5));
    assert_eq!(result_limit(None), 1000);
    assert_eq!(result_limit(Some(3)), 3);
}

#[test]
fn error_texts() {
    assert_eq!(GeoDatasetError::Schema(s("bad")).message(), "Schema error: bad");
    assert_eq!(GeoDatasetError::Scan(s("x")).message(), "Scan error: x");
    assert_eq!(GeoDatasetError::ChunkRead(s("y")).message(), "Chunk read error: y");
    assert_eq!(GeoDatasetError::Other(s("z")).message(), "Other error: z");
}

#[test]
fn coordinate_lookup_rules() {
    assert_eq!(CoordinateResolver::parent_path("s3://b/group/array/"), Some(s("s3://b/group")));
    assert_eq!(CoordinateResolver::parent_path("array"), None);
    assert!(CoordinateResolver::is_longitude("lon") && CoordinateResolver::is_longitude("longitude"));
    assert!(!CoordinateResolver::is_longitude("lat"));
    assert!(CoordinateResolver::readable_shape(&[10]));
    assert!(!CoordinateResolver::readable_shape(&[10, 2]));
    assert!(!CoordinateResolver::readable_shape(&[1_000_000]));
    let dims = vec![s("time"), s("lat"), s("lon")];
    assert_eq!(CoordinateResolver::missing_dims(&dims, &vec![s("lat")]), vec![0, 2]);
}
