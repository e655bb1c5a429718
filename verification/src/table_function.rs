//! The `read_zarr` table function: its parameters, its result columns and
//! the state of one scan.

use vstd::prelude::*;
use crate::types::DataType;
use crate::dataset::{resolve_dimension_names as dataset_dimension_names, dimension_names_of, opt_vec_view};
use crate::text::views;

verus! {

/// Column types of the table function's result.
#[derive(Clone, Copy, Debug, PartialEq, Eq, Structural)]
pub enum ColumnType {
    Bigint,
    Integer,
    Float,
    Double,
    Varchar,
}

/// What a bound `read_zarr` call reads.
#[derive(Debug)]
pub struct ReadZarrBindData {
    pub path: String,
}

/// Scan state of one `read_zarr` call.
#[derive(Debug)]
pub struct ReadZarrInitData {
    pub done: bool,
}

impl ReadZarrInitData {
    /// A scan that has not produced its rows yet.
    pub fn new() -> (r: ReadZarrInitData)
        ensures
            !r.done,
    {
        ReadZarrInitData { done: false }
    }

    /// Mark the scan done, returning whether it already was.
    pub fn finish(&mut self) -> (was_done: bool)
        ensures
            was_done == old(self).done,
            final(self).done,
    {
        let was = self.done;
        self.done = true;
        was
    }
}

/// The `read_zarr(path)` table function.
#[derive(Debug)]
pub struct ReadZarrVTab;

/// Column type of the `value` column for an array data type.
pub open spec fn value_column_of(dt: DataType) -> ColumnType {
    match dt {
        DataType::Float32 => ColumnType::Float,
        DataType::Float64 => ColumnType::Double,
        DataType::Int32 => ColumnType::Integer,
        DataType::Int64 => ColumnType::Bigint,
        _ => ColumnType::Varchar,
    }
}

impl ReadZarrVTab {
    /// A call needs at least the path parameter.
    pub fn check_parameters(count: u64) -> (r: Result<(), String>)
        ensures
            r is Ok <==> count >= 1,
            r matches Err(e) ==> e@ == "read_zarr requires at least 1 parameter (path)"@,
    {
        if count < 1 {
            return Err(String::from_str("read_zarr requires at least 1 parameter (path)"));
        }
        Ok(())
    }

    /// Column type of the `value` column.
    pub fn value_column(dt: &DataType) -> (r: ColumnType)
        ensures
            r == value_column_of(*dt),
    {
        match dt {
            DataType::Float32 => ColumnType::Float,
            DataType::Float64 => ColumnType::Double,
            DataType::Int32 => ColumnType::Integer,
            DataType::Int64 => ColumnType::Bigint,
            _ => ColumnType::Varchar,
        }
    }

    /// Result columns: one `BIGINT` per dimension, then `value`.
    pub fn result_columns(dim_names: &Vec<String>, dt: &DataType) -> (r: Vec<(String, ColumnType)>)
        ensures
            r@.len() == dim_names@.len() + 1,
            forall|i: int| 0 <= i < dim_names@.len() ==> (#[trigger] r@[i]).0@ == dim_names@[i]@ && r@[i].1 == ColumnType::Bigint,
            r@[dim_names@.len() as int].0@ == "value"@,
            r@[dim_names@.len() as int].1 == value_column_of(*dt),
    {
        let n = dim_names.len();
        let mut out: Vec<(String, ColumnType)> = Vec::new();
        let mut i: usize = 0;
        while i < n
            invariant
                n == dim_names@.len(),
                i <= n,
                out@.len() == i,
                forall|j: int| 0 <= j < i ==> (#[trigger] out@[j]).0@ == dim_names@[j]@ && out@[j].1 == ColumnType::Bigint,
            decreases n - i,
        {
            out.push((dim_names[i].clone(), ColumnType::Bigint));
            i = i + 1;
        }
        out.push((String::from_str("value"), Self::value_column(dt)));
        out
    }

    /// Dimension names from the `_ARRAY_DIMENSIONS` attribute (entries that
    /// are not strings given as `None`) when it names all `rank` dimensions,
    /// else `dim_0`, `dim_1`, ...
    pub fn resolve_dimension_names(attr: Option<Vec<Option<String>>>, rank: usize) -> (r: Vec<String>)
        ensures
            views(r@) == dimension_names_of(None, opt_vec_view(attr), rank as int),
    {
        dataset_dimension_names(None, attr, rank)
    }
}

} // verus!
