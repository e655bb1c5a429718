//! Verified core of a GeoZarr / Cloud-Optimized-GeoTIFF reader: TIFF header
//! and IFD parsing, chunk-grid planning, coordinate-range pruning and the
//! routing rules of the virtual Zarr stores built over COGs and STAC items.

pub mod cog;
pub mod text;
pub mod query_planner;
pub mod dataset;
pub mod scanner;
pub mod types;
pub mod guard;
pub mod virtual_store;
pub mod store;
pub mod stac;
pub mod json;
pub mod virtual_stac;
pub mod tools;
pub mod feature_collection;
pub mod geo_dataset;
pub mod metadata;
pub mod table_function;
pub mod coordinate_resolver;
pub mod byte_ranges;
