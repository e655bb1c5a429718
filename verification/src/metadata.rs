//! The coordinate reference system declared by GeoZarr attributes.

use vstd::prelude::*;

verus! {

/// The nested `spatial_reference` object of the GeoZarr attributes.
#[derive(Debug)]
pub struct SpatialReference {
    pub crs: Option<String>,
}

/// The CRS fields of the `geozarr` attribute object.
#[derive(Debug)]
pub struct GeoZarrMetadata {
    pub crs: Option<String>,
    pub spatial_reference: Option<SpatialReference>,
}

pub open spec fn crs_of(m: GeoZarrMetadata) -> Option<Seq<char>> {
    match m.crs {
        Some(c) => Some(c@),
        None => match m.spatial_reference {
            Some(s) => match s.crs {
                Some(c) => Some(c@),
                None => None,
            },
            None => None,
        },
    }
}

impl GeoZarrMetadata {
    /// CRS resolved from the flat `crs` field, falling back to the nested
    /// `spatial_reference.crs` (the layout used by the GeoZarr spec).
    pub fn resolved_crs(&self) -> (r: Option<String>)
        ensures
            match r {
                Some(c) => crs_of(*self) == Some(c@),
                None => crs_of(*self) is None,
            },
    {
        match &self.crs {
            Some(c) => Some(c.clone()),
            None => match &self.spatial_reference {
                Some(s) => match &s.crs {
                    Some(c) => Some(c.clone()),
                    None => None,
                },
                None => None,
            },
        }
    }
}

} // verus!
