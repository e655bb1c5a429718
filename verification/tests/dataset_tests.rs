use geozarr_core::dataset::{check_rank, dimension_columns, resolve_dimension_names, select_asset_path};
use geozarr_core::table_function::{ColumnType, ReadZarrInitData, ReadZarrVTab};
use geozarr_core::types::{bytes_per_element, string_to_zarr_type, DataType, DatasetValidator};

fn assets(names: &[&str]) -> Vec<String> {
    names.iter().map(|n| n.to_string()).collect()
}

fn some_names(names: &[&str]) -> Option<Vec<Option<String>>> {
    Some(names.iter().map(|n| Some(n.to_string())).collect())
}

#[test]
fn picks_named_asset() {
    assert_eq!(select_asset_path(&assets(&["red", "nir"]), Some("nir")).unwrap(), "/nir");
}

#[test]
fn auto_selects_single_asset() {
    assert_eq!(select_asset_path(&assets(&["only"]), None).unwrap(), "/only");
}

#[test]
fn errors_on_multiple_without_asset() {
    let e = select_asset_path(&assets(&["red", "nir"]), None).unwrap_err();
    assert!(e.contains("red") && e.contains("nir") && e.contains("asset"));
}

#[test]
fn errors_on_unknown_asset() {
    let e = select_asset_path(&assets(&["red", "nir"]), Some("green")).unwrap_err();
    assert!(e.contains("green") || e.contains("Available"));
}

#[test]
fn select_asset_exact_messages() {
    assert_eq!(
        select_asset_path(&assets(&["red", "nir"]), Some("green")).unwrap_err(),
        "asset 'green' not found. Available: red, nir"
    );
    assert_eq!(select_asset_path(&assets(&[]), None).unwrap_err(), "STAC group has no assets");
    assert_eq!(
        select_asset_path(&assets(&["red", "nir"]), None).unwrap_err(),
        "STAC Item has multiple assets; choose one with asset := '<name>'. Available: red, nir"
    );
}

#[test]
fn dataset_test_resolve_dimension_names_fallback() {
    // A Zarr v2 array without `_ARRAY_DIMENSIONS`.
    let names = resolve_dimension_names(None, None, 3);
    assert_eq!(names, vec!["dim_0", "dim_1", "dim_2"]);
}

#[test]
fn dataset_test_resolve_dimension_names_with_attributes() {
    let names = resolve_dimension_names(None, some_names(&["time", "lat", "lon"]), 3);
    assert_eq!(names, vec!["time", "lat", "lon"]);
}

#[test]
fn test_resolve_dimension_names_v3_native_dimension_names() {
    let names = resolve_dimension_names(some_names(&["lat", "lon"]), None, 2);
    assert_eq!(names, vec!["lat", "lon"]);
}

#[test]
fn test_resolve_dimension_names_v3_partial_names_fall_back() {
    let names = resolve_dimension_names(Some(vec![Some("lat".to_string()), None]), None, 2);
    assert_eq!(names, vec!["dim_0", "dim_1"]);
}

#[test]
fn dimension_names_rank_mismatch_falls_back() {
    let names = resolve_dimension_names(None, some_names(&["lat", "lon"]), 3);
    assert_eq!(names, vec!["dim_0", "dim_1", "dim_2"]);
}

#[test]
fn table_function_test_resolve_dimension_names_fallback() {
    let names = ReadZarrVTab::resolve_dimension_names(None, 3);
    assert_eq!(names, vec!["dim_0", "dim_1", "dim_2"]);
}

#[test]
fn table_function_test_resolve_dimension_names_with_attributes() {
    let names = ReadZarrVTab::resolve_dimension_names(some_names(&["time", "lat", "lon"]), 3);
    assert_eq!(names, vec!["time", "lat", "lon"]);
}

#[test]
fn read_zarr_columns_and_parameters() {
    let cols = ReadZarrVTab::result_columns(&assets(&["lat", "lon"]), &DataType::Float32);
    assert_eq!(cols.len(), 3);
    assert_eq!(cols[0], ("lat".to_string(), ColumnType::Bigint));
    assert_eq!(cols[2], ("value".to_string(), ColumnType::Float));
    assert_eq!(ReadZarrVTab::value_column(&DataType::UInt8), ColumnType::Varchar);
    assert_eq!(
        ReadZarrVTab::check_parameters(0).unwrap_err(),
        "read_zarr requires at least 1 parameter (path)"
    );
    assert!(ReadZarrVTab::check_parameters(1).is_ok());
    let mut init = ReadZarrInitData::new();
    assert!(!init.finish());
    assert!(init.finish());
}

#[test]
fn rank_limit() {
    assert!(check_rank(16).is_ok());
    assert_eq!(check_rank(17).unwrap_err(), "Zarr array rank 17 exceeds maximum supported dimensions (16)");
}

#[test]
fn schema_dimension_columns() {
    let cols = dimension_columns(&assets(&["time", "lat", "lon"]), &assets(&["time"]), Some(3));
    assert_eq!(cols, vec![("time".to_string(), true), ("lat".to_string(), true), ("lon".to_string(), true)]);
    let cols = dimension_columns(&assets(&["time", "lat", "lon"]), &assets(&["time"]), None);
    assert_eq!(cols, vec![("time".to_string(), true), ("lat".to_string(), false), ("lon".to_string(), false)]);
    let cols = dimension_columns(&assets(&["time", "lat", "lon"]), &assets(&[]), Some(2));
    assert_eq!(cols, vec![("time".to_string(), true), ("lat".to_string(), true), ("lon".to_string(), false)]);
}

#[test]
fn type_names_and_sizes() {
    assert_eq!(string_to_zarr_type("DOUBLE").unwrap(), DataType::Float64);
    assert_eq!(string_to_zarr_type("VARCHAR").unwrap(), DataType::String);
    assert_eq!(string_to_zarr_type("BLOB").unwrap_err(), "Unsupported DuckDB type: BLOB");
    assert_eq!(bytes_per_element(&DataType::Int16), 2);
    assert_eq!(bytes_per_element(&DataType::String), 64);
    assert_eq!(bytes_per_element(&DataType::Bool), 1);
}

#[test]
fn chunk_size_validation() {
    assert!(DatasetValidator::validate_chunk_sizes(&[100, 100], &[10, 10], &DataType::Float64).is_ok());
    assert!(DatasetValidator::validate_chunk_sizes(&[100000, 100000], &[100000, 100000], &DataType::Float64).is_err());
}
