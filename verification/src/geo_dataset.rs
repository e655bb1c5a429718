//! Errors of dataset operations.

use vstd::prelude::*;
use crate::text::{push_str, string_of};

verus! {

/// Errors that can occur during dataset operations.
#[derive(Debug)]
pub enum GeoDatasetError {
    /// Failed to read or parse the schema.
    Schema(String),
    /// Failed to plan or execute a scan.
    Scan(String),
    /// Failed to read a chunk.
    ChunkRead(String),
    /// An unknown or generic error.
    Other(String),
}

/// The display text of an error: its kind, then its message.
pub open spec fn error_text(e: GeoDatasetError) -> Seq<char> {
    match e {
        GeoDatasetError::Schema(m) => "Schema error: "@ + m@,
        GeoDatasetError::Scan(m) => "Scan error: "@ + m@,
        GeoDatasetError::ChunkRead(m) => "Chunk read error: "@ + m@,
        GeoDatasetError::Other(m) => "Other error: "@ + m@,
    }
}

impl GeoDatasetError {
    /// The error's display text.
    pub fn message(&self) -> (r: String)
        ensures
            r@ == error_text(*self),
    {
        let mut v: Vec<char> = Vec::new();
        match self {
            GeoDatasetError::Schema(m) => {
                push_str(&mut v, "Schema error: ");
                push_str(&mut v, m.as_str());
            },
            GeoDatasetError::Scan(m) => {
                push_str(&mut v, "Scan error: ");
                push_str(&mut v, m.as_str());
            },
            GeoDatasetError::ChunkRead(m) => {
                push_str(&mut v, "Chunk read error: ");
                push_str(&mut v, m.as_str());
            },
            GeoDatasetError::Other(m) => {
                push_str(&mut v, "Other error: ");
                push_str(&mut v, m.as_str());
            },
        }
        string_of(v.as_slice())
    }
}

} // verus!
