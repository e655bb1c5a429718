//! A STAC FeatureCollection source and the search URL a query's bounding box
//! narrows.

use vstd::prelude::*;
use crate::text::{chars_of, contains_char, push_str, string_of};

verus! {

/// A STAC FeatureCollection endpoint and the asset read from its items.
#[derive(Debug)]
pub struct FeatureCollectionDataset {
    pub url: String,
    pub asset_name: String,
}

impl FeatureCollectionDataset {
    /// Open the collection at `url`; the asset read is `swir22`.
    pub fn open(url: &str) -> (r: Result<FeatureCollectionDataset, String>)
        ensures
            r matches Ok(d) && d.url@ == url@ && d.asset_name@ == "swir22"@,
    {
        Ok(FeatureCollectionDataset { url: string_of(chars_of(url).as_slice()), asset_name: String::from_str("swir22") })
    }
}

/// The search URL: with all four bounds known, `bbox=lon_min,lat_min,lon_max,lat_max`
/// is appended as a query parameter (after `&` when the URL already has a
/// query, else after `?`); otherwise the URL is unchanged.
pub open spec fn stac_url(base: Seq<char>, lat: (Option<String>, Option<String>), lon: (Option<String>, Option<String>)) -> Seq<char> {
    match (lon.0, lat.0, lon.1, lat.1) {
        (Some(w), Some(s), Some(e), Some(n)) => base + (if base.contains('?') { "&"@ } else { "?"@ }) + "bbox="@ + w@
            + ","@ + s@ + ","@ + e@ + ","@ + n@,
        _ => base,
    }
}

/// Narrow a STAC search URL by the query's latitude and longitude bounds,
/// given as the text of each bound (`(min, max)`, `None` where unbounded).
pub fn build_stac_url(base_url: &str, lat: &(Option<String>, Option<String>), lon: &(Option<String>, Option<String>)) -> (r: String)
    ensures
        r@ == stac_url(base_url@, *lat, *lon),
{
    let mut url = chars_of(base_url);
    match (&lon.0, &lat.0, &lon.1, &lat.1) {
        (Some(w), Some(s), Some(e), Some(n)) => {
            if contains_char(url.as_slice(), '?') {
                push_str(&mut url, "&");
            } else {
                push_str(&mut url, "?");
            }
            push_str(&mut url, "bbox=");
            push_str(&mut url, w.as_str());
            push_str(&mut url, ",");
            push_str(&mut url, s.as_str());
            push_str(&mut url, ",");
            push_str(&mut url, e.as_str());
            push_str(&mut url, ",");
            push_str(&mut url, n.as_str());
        },
        _ => {},
    }
    string_of(url.as_slice())
}

} // verus!
