//! Element data types of Zarr arrays, their sizes, and the chunk-size limits.

use vstd::prelude::*;
use crate::text::{chars_of, eq_str, push_str, push_decimal, string_of, decimal};

verus! {

/// Element data type of a Zarr array (the ones the scanner handles by name;
/// every other Zarr data type is `Other`).
#[derive(Clone, Copy, Debug, PartialEq, Eq, Structural)]
pub enum DataType {
    Bool,
    Int8,
    Int16,
    Int32,
    Int64,
    UInt8,
    UInt16,
    UInt32,
    UInt64,
    Float32,
    Float64,
    String,
    Other,
}

/// Bytes per element used for cost estimates (strings are estimated at 64).
pub open spec fn element_size(dt: DataType) -> u64 {
    match dt {
        DataType::Float64 | DataType::Int64 | DataType::UInt64 => 8,
        DataType::Float32 | DataType::Int32 | DataType::UInt32 => 4,
        DataType::Int16 | DataType::UInt16 => 2,
        DataType::String => 64,
        _ => 1,
    }
}

/// Size in bytes of one element of the type.
pub fn bytes_per_element(data_type: &DataType) -> (r: u64)
    ensures
        r == element_size(*data_type),
{
    match data_type {
        DataType::Float64 | DataType::Int64 | DataType::UInt64 => 8,
        DataType::Float32 | DataType::Int32 | DataType::UInt32 => 4,
        DataType::Int16 | DataType::UInt16 => 2,
        DataType::String => 64,
        _ => 1,
    }
}

/// Zarr data type of a DuckDB column type name.
pub open spec fn zarr_type_of(t: Seq<char>) -> Option<DataType> {
    if t == "BOOLEAN"@ {
        Some(DataType::Bool)
    } else if t == "TINYINT"@ {
        Some(DataType::Int8)
    } else if t == "SMALLINT"@ {
        Some(DataType::Int16)
    } else if t == "INTEGER"@ {
        Some(DataType::Int32)
    } else if t == "BIGINT"@ {
        Some(DataType::Int64)
    } else if t == "UTINYINT"@ {
        Some(DataType::UInt8)
    } else if t == "USMALLINT"@ {
        Some(DataType::UInt16)
    } else if t == "UINTEGER"@ {
        Some(DataType::UInt32)
    } else if t == "UBIGINT"@ {
        Some(DataType::UInt64)
    } else if t == "FLOAT"@ || t == "REAL"@ {
        Some(DataType::Float32)
    } else if t == "DOUBLE"@ || t == "FLOAT8"@ || t == "DECIMAL"@ || t == "NUMERIC"@ {
        Some(DataType::Float64)
    } else if t == "VARCHAR"@ {
        Some(DataType::String)
    } else {
        None
    }
}

/// The element type of a DuckDB column type name.
pub fn string_to_zarr_type(duckdb_type: &str) -> (r: Result<DataType, String>)
    ensures
        r is Ok <==> zarr_type_of(duckdb_type@) is Some,
        r matches Ok(d) ==> zarr_type_of(duckdb_type@) == Some(d),
        r matches Err(e) ==> e@ == "Unsupported DuckDB type: "@ + duckdb_type@,
{
    let v = chars_of(duckdb_type);
    let t = v.as_slice();
    if eq_str(t, "BOOLEAN") {
        Ok(DataType::Bool)
    } else if eq_str(t, "TINYINT") {
        Ok(DataType::Int8)
    } else if eq_str(t, "SMALLINT") {
        Ok(DataType::Int16)
    } else if eq_str(t, "INTEGER") {
        Ok(DataType::Int32)
    } else if eq_str(t, "BIGINT") {
        Ok(DataType::Int64)
    } else if eq_str(t, "UTINYINT") {
        Ok(DataType::UInt8)
    } else if eq_str(t, "USMALLINT") {
        Ok(DataType::UInt16)
    } else if eq_str(t, "UINTEGER") {
        Ok(DataType::UInt32)
    } else if eq_str(t, "UBIGINT") {
        Ok(DataType::UInt64)
    } else if eq_str(t, "FLOAT") || eq_str(t, "REAL") {
        Ok(DataType::Float32)
    } else if eq_str(t, "DOUBLE") || eq_str(t, "FLOAT8") || eq_str(t, "DECIMAL") || eq_str(t, "NUMERIC") {
        Ok(DataType::Float64)
    } else if eq_str(t, "VARCHAR") {
        Ok(DataType::String)
    } else {
        let mut msg: Vec<char> = Vec::new();
        push_str(&mut msg, "Unsupported DuckDB type: ");
        push_str(&mut msg, duckdb_type);
        Err(string_of(msg.as_slice()))
    }
}

/// Product of all chunk dimensions.
pub open spec fn volume(s: Seq<u64>) -> int
    decreases s.len(),
{
    if s.len() == 0 {
        1
    } else {
        volume(s.drop_last()) * s.last()
    }
}

/// Storage width used by the chunk-size limit (strings are limited by count).
pub open spec fn stored_width(dt: DataType) -> int {
    match dt {
        DataType::Float64 | DataType::Int64 | DataType::UInt64 => 8,
        DataType::Float32 | DataType::Int32 | DataType::UInt32 => 4,
        DataType::Int16 | DataType::UInt16 => 2,
        _ => 1,
    }
}

/// Why a chunk shape is refused, if it is: a zero dimension, a volume or byte
/// size beyond `u64`, more than a million strings, or more than 256 MiB.
pub open spec fn chunk_size_error(cs: Seq<u64>, dt: DataType) -> Option<Seq<char>> {
    if cs.contains(0) {
        Some("Chunk dimension size cannot be 0"@)
    } else if volume(cs) > u64::MAX {
        Some("Chunk volume overflow"@)
    } else if dt == DataType::String {
        if volume(cs) > 1_000_000 {
            Some("Zarr string chunk volume "@ + decimal(volume(cs) as nat)
                + " exceeds maximum allowed (1,000,000 elements) to prevent OOM"@)
        } else {
            None
        }
    } else if volume(cs) * stored_width(dt) > u64::MAX {
        Some("Chunk byte volume overflow"@)
    } else if volume(cs) * stored_width(dt) > 256 * 1024 * 1024 {
        Some("Chunk size "@ + decimal((volume(cs) * stored_width(dt)) as nat)
            + " bytes exceeds maximum allowed volume of 256MB"@)
    } else {
        None
    }
}

/// Guard against chunk shapes that cannot be held in memory.
pub struct DatasetValidator;

proof fn lemma_volume_monotone(s: Seq<u64>, i: int)
    requires
        0 <= i <= s.len(),
        !s.contains(0),
    ensures
        volume(s.subrange(0, i)) <= volume(s),
        volume(s.subrange(0, i)) >= 1,
    decreases s.len() - i,
{
    assert(!s.subrange(0, i).contains(0)) by {
        if s.subrange(0, i).contains(0) {
            let k = choose|k: int| 0 <= k < s.subrange(0, i).len() && s.subrange(0, i)[k] == 0;
            assert(s[k] == 0);
        }
    }
    lemma_volume_pos(s.subrange(0, i));
    if i < s.len() {
        lemma_volume_monotone(s, i + 1);
        let a = s.subrange(0, i + 1);
        assert(a.drop_last() =~= s.subrange(0, i));
        assert(s[i] != 0) by {
            if s[i] == 0 {
                assert(s.contains(0));
            }
        }
        assert(volume(a) == volume(s.subrange(0, i)) * s[i]);
        assert(volume(s.subrange(0, i)) * s[i] >= volume(s.subrange(0, i))) by (nonlinear_arith)
            requires
                s[i] >= 1,
                volume(s.subrange(0, i)) >= 0,
        ;
    } else {
        assert(s.subrange(0, i) =~= s);
        lemma_volume_pos(s);
    }
}

proof fn lemma_volume_pos(s: Seq<u64>)
    requires
        !s.contains(0),
    ensures
        volume(s) >= 1,
    decreases s.len(),
{
    if s.len() > 0 {
        assert(!s.drop_last().contains(0)) by {
            if s.drop_last().contains(0) {
                let k = choose|k: int| 0 <= k < s.drop_last().len() && s.drop_last()[k] == 0;
                assert(s[k] == 0);
            }
        }
        lemma_volume_pos(s.drop_last());
        assert(s.last() != 0) by {
            if s.last() == 0 {
                assert(s[s.len() - 1] == 0);
            }
        }
        assert(volume(s.drop_last()) * s.last() >= 1) by (nonlinear_arith)
            requires
                volume(s.drop_last()) >= 1,
                s.last() >= 1,
        ;
    }
}

impl DatasetValidator {
    /// Refuse chunk shapes with a zero dimension or whose volume is too large.
    pub fn validate_chunk_sizes(_shape: &[u64], chunk_shape: &[u64], data_type: &DataType) -> (r: Result<(), String>)
        ensures
            r is Ok <==> chunk_size_error(chunk_shape@, *data_type) is None,
            r matches Err(e) ==> Some(e@) == chunk_size_error(chunk_shape@, *data_type),
    {
        let n = chunk_shape.len();
        let mut i: usize = 0;
        while i < n
            invariant
                n == chunk_shape@.len(),
                i <= n,
                forall|k: int| 0 <= k < i ==> chunk_shape@[k] != 0,
            decreases n - i,
        {
            if chunk_shape[i] == 0 {
                assert(chunk_shape@.contains(0));
                return Err(String::from_str("Chunk dimension size cannot be 0"));
            }
            i = i + 1;
        }
        assert(!chunk_shape@.contains(0));
        let mut vol: u64 = 1;
        let mut j: usize = 0;
        while j < n
            invariant
                n == chunk_shape@.len(),
                !chunk_shape@.contains(0),
                j <= n,
                vol == volume(chunk_shape@.subrange(0, j as int)),
            decreases n - j,
        {
            proof {
                assert(chunk_shape@.subrange(0, j + 1).drop_last() =~= chunk_shape@.subrange(0, j as int));
            }
            match vol.checked_mul(chunk_shape[j]) {
                Some(v) => vol = v,
                None => {
                    proof {
                        lemma_volume_monotone(chunk_shape@, j + 1);
                    }
                    return Err(String::from_str("Chunk volume overflow"));
                },
            }
            j = j + 1;
        }
        assert(chunk_shape@.subrange(0, n as int) =~= chunk_shape@);
        let mut msg: Vec<char> = Vec::new();
        if *data_type == DataType::String {
            if vol > 1_000_000 {
                push_str(&mut msg, "Zarr string chunk volume ");
                push_decimal(&mut msg, vol);
                push_str(&mut msg, " exceeds maximum allowed (1,000,000 elements) to prevent OOM");
                return Err(string_of(msg.as_slice()));
            }
        } else {
            let width: u64 = match data_type {
                DataType::Float64 | DataType::Int64 | DataType::UInt64 => 8,
                DataType::Float32 | DataType::Int32 | DataType::UInt32 => 4,
                DataType::Int16 | DataType::UInt16 => 2,
                _ => 1,
            };
            let bytes = match vol.checked_mul(width) {
                Some(b) => b,
                None => return Err(String::from_str("Chunk byte volume overflow")),
            };
            if bytes > 256 * 1024 * 1024 {
                push_str(&mut msg, "Chunk size ");
                push_decimal(&mut msg, bytes);
                push_str(&mut msg, " bytes exceeds maximum allowed volume of 256MB");
                return Err(string_of(msg.as_slice()));
            }
        }
        Ok(())
    }
}

} // verus!
