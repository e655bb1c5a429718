//! Byte ranges of a partial read: which reads need the object's size, and
//! which `[start, end)` spans are fetched for the requested ranges.

use vstd::prelude::*;

verus! {

/// A requested byte range, as Zarr stores receive it: an offset and an
/// optional length, measured from the start or from the end of the value.
#[derive(Clone, Copy, Debug, PartialEq, Eq, Structural)]
pub enum ReadRange {
    /// `length` bytes from `offset`; to the end of the value without a length.
    FromStart(u64, Option<u64>),
    /// `length` bytes ending `offset` bytes before the end; from the start
    /// of the value without a length.
    FromEnd(u64, Option<u64>),
}

/// The range can only be placed once the value's size is known.
pub open spec fn range_needs_size(r: ReadRange) -> bool {
    match r {
        ReadRange::FromStart(_, None) => true,
        ReadRange::FromStart(_, Some(_)) => false,
        ReadRange::FromEnd(_, _) => true,
    }
}

/// First byte of the range in a value of `size` bytes.
pub open spec fn range_start(r: ReadRange, size: u64) -> int {
    match r {
        ReadRange::FromStart(o, _) => o as int,
        ReadRange::FromEnd(o, Some(l)) => size - o - l,
        ReadRange::FromEnd(_, None) => 0,
    }
}

/// One past the last byte of the range in a value of `size` bytes.
pub open spec fn range_end(r: ReadRange, size: u64) -> int {
    match r {
        ReadRange::FromStart(o, Some(l)) => o + l,
        ReadRange::FromStart(_, None) => size as int,
        ReadRange::FromEnd(o, _) => size - o,
    }
}

/// Placing the range in a value of `size` bytes stays within `u64`: no
/// offset or length reaches past either end of the number range.
pub open spec fn range_placeable(r: ReadRange, size: u64) -> bool {
    0 <= range_start(r, size) <= u64::MAX && 0 <= range_end(r, size) <= u64::MAX && match r {
        ReadRange::FromEnd(o, Some(_)) => o <= size,
        _ => true,
    }
}

/// Whether any of the ranges needs the value's size: only then is it looked up.
pub fn any_needs_size(ranges: &[ReadRange]) -> (r: bool)
    ensures
        r == exists|i: int| 0 <= i < ranges@.len() && range_needs_size(#[trigger] ranges@[i]),
{
    let mut i: usize = 0;
    while i < ranges.len()
        invariant
            i <= ranges@.len(),
            forall|j: int| 0 <= j < i ==> !range_needs_size(#[trigger] ranges@[j]),
        decreases ranges@.len() - i,
    {
        let needs = match ranges[i] {
            ReadRange::FromStart(_, None) => true,
            ReadRange::FromStart(_, Some(_)) => false,
            ReadRange::FromEnd(_, _) => true,
        };
        if needs {
            assert(range_needs_size(ranges@[i as int]));
            return true;
        }
        i = i + 1;
    }
    false
}

/// The `[start, end)` span fetched for each requested range of a value of
/// `size` bytes, in request order.
pub fn resolve_reads(ranges: &[ReadRange], size: u64) -> (r: Vec<(u64, u64)>)
    requires
        forall|i: int| 0 <= i < ranges@.len() ==> range_placeable(#[trigger] ranges@[i], size),
    ensures
        r@.len() == ranges@.len(),
        forall|i: int| 0 <= i < ranges@.len() ==> (#[trigger] r@[i]).0 == range_start(ranges@[i], size)
            && r@[i].1 == range_end(ranges@[i], size),
{
    let mut out: Vec<(u64, u64)> = Vec::new();
    let mut i: usize = 0;
    while i < ranges.len()
        invariant
            i <= ranges@.len(),
            out@.len() == i,
            forall|j: int| 0 <= j < ranges@.len() ==> range_placeable(#[trigger] ranges@[j], size),
            forall|j: int| 0 <= j < i ==> (#[trigger] out@[j]).0 == range_start(ranges@[j], size)
                && out@[j].1 == range_end(ranges@[j], size),
        decreases ranges@.len() - i,
    {
        let r = ranges[i];
        assert(range_placeable(ranges@[i as int], size));
        let span: (u64, u64) = match r {
            ReadRange::FromStart(o, Some(l)) => (o, o + l),
            ReadRange::FromStart(o, None) => (o, size),
            ReadRange::FromEnd(o, Some(l)) => (size - o - l, size - o),
            ReadRange::FromEnd(o, None) => (0, size - o),
        };
        out.push(span);
        i = i + 1;
    }
    out
}

/// First byte a virtual store serves for a range of a value it holds: the
/// offset of a range from the start, else the first byte.
pub open spec fn served_start(r: ReadRange) -> int {
    match r {
        ReadRange::FromStart(o, _) => o as int,
        ReadRange::FromEnd(_, _) => 0,
    }
}

/// One past the last byte a virtual store serves for a range of a value of
/// `len` bytes: offset plus length for a bounded range from the start, else
/// the whole rest of the value.
pub open spec fn served_end(r: ReadRange, len: u64) -> int {
    match r {
        ReadRange::FromStart(o, Some(l)) => o + l,
        _ => len as int,
    }
}

/// The range can be cut from a value of `len` bytes.
pub open spec fn servable(r: ReadRange, len: u64) -> bool {
    served_start(r) <= served_end(r, len) <= len
}

/// The `[start, end)` spans a virtual store cuts from a value of `len` bytes
/// it holds in full, for each requested range in order.
pub fn served_spans(ranges: &[ReadRange], len: u64) -> (r: Vec<(u64, u64)>)
    requires
        forall|i: int| 0 <= i < ranges@.len() ==> servable(#[trigger] ranges@[i], len),
    ensures
        r@.len() == ranges@.len(),
        forall|i: int| 0 <= i < ranges@.len() ==> (#[trigger] r@[i]).0 == served_start(ranges@[i])
            && r@[i].1 == served_end(ranges@[i], len),
{
    let mut out: Vec<(u64, u64)> = Vec::new();
    let mut i: usize = 0;
    while i < ranges.len()
        invariant
            i <= ranges@.len(),
            out@.len() == i,
            forall|j: int| 0 <= j < ranges@.len() ==> servable(#[trigger] ranges@[j], len),
            forall|j: int| 0 <= j < i ==> (#[trigger] out@[j]).0 == served_start(ranges@[j])
                && out@[j].1 == served_end(ranges@[j], len),
        decreases ranges@.len() - i,
    {
        let r = ranges[i];
        assert(servable(ranges@[i as int], len));
        let span: (u64, u64) = match r {
            ReadRange::FromStart(o, Some(l)) => (o, o + l),
            ReadRange::FromStart(o, None) => (o, len),
            ReadRange::FromEnd(_, _) => (0, len),
        };
        out.push(span);
        i = i + 1;
    }
    out
}

} // verus!
