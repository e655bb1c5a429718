//! TIFF / Cloud-Optimized GeoTIFF header and IFD parsing.

use vstd::prelude::*;
use vstd::utf8::valid_utf8;
use vstd::slice::{slice_subrange, slice_to_vec};
use crate::text::{decimal, digit_char, digit_of, push_decimal, push_str, string_of};

verus! {

/// Unsigned 16-bit integer stored at `off` in `b`, in the given byte order.
pub open spec fn u16_at(b: Seq<u8>, off: int, le: bool) -> int {
    if le {
        b[off] + 256 * b[off + 1]
    } else {
        256 * b[off] + b[off + 1]
    }
}

/// Unsigned 32-bit integer stored at `off` in `b`, in the given byte order.
pub open spec fn u32_at(b: Seq<u8>, off: int, le: bool) -> int {
    if le {
        u16_at(b, off, true) + 65536 * u16_at(b, off + 2, true)
    } else {
        65536 * u16_at(b, off, false) + u16_at(b, off + 2, false)
    }
}

/// The two byte-order marks of a TIFF file: `II` (little endian) and `MM` (big endian).
pub open spec fn is_le_mark(b: Seq<u8>) -> bool {
    b[0] == 0x49u8 && b[1] == 0x49u8
}

pub open spec fn is_be_mark(b: Seq<u8>) -> bool {
    b[0] == 0x4du8 && b[1] == 0x4du8
}

/// A buffer starts with a valid classic (42) or BigTIFF (43) header.
pub open spec fn valid_tiff_header(b: Seq<u8>) -> bool {
    &&& b.len() >= 8
    &&& is_le_mark(b) || is_be_mark(b)
    &&& u16_at(b, 2, is_le_mark(b)) == 42 || u16_at(b, 2, is_le_mark(b)) == 43
}

/// The 16-bit integer at `off`, in the given byte order.
pub fn read_u16(b: &[u8], off: usize, le: bool) -> (r: u16)
    requires
        off + 2 <= b@.len(),
    ensures
        r == u16_at(b@, off as int, le),
{
    let _n = b.len();
    let lo: u16 = if le { b[off] as u16 } else { b[off + 1] as u16 };
    let hi: u16 = if le { b[off + 1] as u16 } else { b[off] as u16 };
    lo + hi * 256
}

/// The 32-bit integer at `off`, in the given byte order.
pub fn read_u32(b: &[u8], off: usize, le: bool) -> (r: u32)
    requires
        off + 4 <= b@.len(),
    ensures
        r == u32_at(b@, off as int, le),
{
    let _n = b.len();
    let first = read_u16(b, off, le) as u32;
    let second = read_u16(b, off + 2, le) as u32;
    if le {
        first + second * 65536
    } else {
        first * 65536 + second
    }
}

/// Byte order and location of the first image file directory of a TIFF file.
#[derive(Debug)]
pub struct TiffHeader {
    pub is_little_endian: bool,
    pub first_ifd_offset: u32,
}

/// Parse the 8-byte TIFF header at the start of `buffer`.
/// Why a buffer does not start with a valid TIFF header.
pub open spec fn header_error(b: Seq<u8>) -> Seq<char> {
    if b.len() < 8 {
        "Buffer too small for TIFF header"@
    } else if !is_le_mark(b) && !is_be_mark(b) {
        "Invalid TIFF byte order"@
    } else {
        "Invalid TIFF magic number"@
    }
}

/// Reads the byte order, the classic/BigTIFF magic and the first IFD offset.
pub fn parse_tiff_header(buffer: &[u8]) -> (r: Result<TiffHeader, String>)
    ensures
        r is Ok <==> valid_tiff_header(buffer@),
        r matches Ok(h) ==> {
            &&& h.is_little_endian == is_le_mark(buffer@)
            &&& h.first_ifd_offset == u32_at(buffer@, 4, h.is_little_endian)
        },
        !valid_tiff_header(buffer@) ==> (r matches Err(e) && e@ == header_error(buffer@)),
{
    if buffer.len() < 8 {
        return Err(String::from_str("Buffer too small for TIFF header"));
    }
    let is_little_endian = if buffer[0] == 0x49 && buffer[1] == 0x49 {
        true
    } else if buffer[0] == 0x4d && buffer[1] == 0x4d {
        false
    } else {
        return Err(String::from_str("Invalid TIFF byte order"));
    };
    let magic = read_u16(buffer, 2, is_little_endian);
    if magic != 42 && magic != 43 {
        return Err(String::from_str("Invalid TIFF magic number"));
    }
    let first_ifd_offset = read_u32(buffer, 4, is_little_endian);
    Ok(TiffHeader { is_little_endian, first_ifd_offset })
}

} // verus!

verus! {

/// Unsigned 64-bit integer stored at `off` in `b`, in the given byte order.
pub open spec fn u64_at(b: Seq<u8>, off: int, le: bool) -> int {
    if le {
        u32_at(b, off, true) + 0x1_0000_0000 * u32_at(b, off + 4, true)
    } else {
        0x1_0000_0000 * u32_at(b, off, false) + u32_at(b, off + 4, false)
    }
}

/// The 64-bit integer at `off`, in the given byte order.
pub fn read_u64(b: &[u8], off: usize, le: bool) -> (r: u64)
    requires
        off + 8 <= b@.len(),
    ensures
        r == u64_at(b@, off as int, le),
{
    let _n = b.len();
    let first = read_u32(b, off, le) as u64;
    let second = read_u32(b, off + 4, le) as u64;
    if le {
        first + second * 0x1_0000_0000
    } else {
        first * 0x1_0000_0000 + second
    }
}

/// Abstract contents of a parsed COG image file directory.
/// Floating-point tags (pixel scale, tie points, model transformation) are
/// kept as their IEEE-754 bit patterns; the GDAL_NODATA tag as its raw text.
pub struct CogMetaView {
    pub image_width: u32,
    pub image_length: u32,
    pub tile_width: u32,
    pub tile_length: u32,
    pub tile_offsets: Seq<u64>,
    pub tile_byte_counts: Seq<u64>,
    pub is_little_endian: bool,
    pub bits_per_sample: u16,
    pub sample_format: u16,
    pub samples_per_pixel: u16,
    pub compression: u16,
    pub predictor: u16,
    pub nodata_text: Option<Seq<u8>>,
    pub pixel_scale: Seq<u64>,
    pub tiepoint: Seq<u64>,
    pub model_transformation: Seq<u64>,
    pub epsg: Option<u32>,
}

/// Tags read from a COG header.
#[derive(Clone, Debug)]
pub struct CogMetadata {
    pub image_width: u32,
    pub image_length: u32,
    pub tile_width: u32,
    pub tile_length: u32,
    pub tile_offsets: Vec<u64>,
    pub tile_byte_counts: Vec<u64>,
    pub is_little_endian: bool,
    /// Tag 258 (BitsPerSample); 32 when absent.
    pub bits_per_sample: u16,
    /// Tag 339 (SampleFormat): 1 = unsigned int (default), 2 = signed int, 3 = float.
    pub sample_format: u16,
    /// Tag 277 (SamplesPerPixel); 1 when absent.
    pub samples_per_pixel: u16,
    /// Tag 259 (Compression); 1 (none) when absent.
    pub compression: u16,
    /// Tag 317 (Predictor); 1 (none) when absent.
    pub predictor: u16,
    /// Raw text of the GDAL_NODATA tag (42113), when it is valid UTF-8.
    pub nodata_text: Option<Vec<u8>>,
    /// ModelPixelScale (33550), as IEEE-754 bit patterns.
    pub pixel_scale: Vec<u64>,
    /// ModelTiepoint (33922), as IEEE-754 bit patterns.
    pub tiepoint: Vec<u64>,
    /// ModelTransformation (34264), as IEEE-754 bit patterns.
    pub model_transformation: Vec<u64>,
    /// EPSG code from the GeoKeyDirectory (34735).
    pub epsg: Option<u32>,
}

impl Default for CogMetadata {
    /// No tag read: every field zero, empty or absent, big-endian.
    fn default() -> (r: CogMetadata)
        ensures
            r@ == empty_meta(false),
    {
        CogMetadata {
            image_width: 0,
            image_length: 0,
            tile_width: 0,
            tile_length: 0,
            tile_offsets: Vec::new(),
            tile_byte_counts: Vec::new(),
            is_little_endian: false,
            bits_per_sample: 0,
            sample_format: 0,
            samples_per_pixel: 0,
            compression: 0,
            predictor: 0,
            nodata_text: None,
            pixel_scale: Vec::new(),
            tiepoint: Vec::new(),
            model_transformation: Vec::new(),
            epsg: None,
        }
    }
}

pub open spec fn opt_bytes_view(o: Option<Vec<u8>>) -> Option<Seq<u8>> {
    match o {
        Some(v) => Some(v@),
        None => None,
    }
}

impl View for CogMetadata {
    type V = CogMetaView;

    open spec fn view(&self) -> CogMetaView {
        CogMetaView {
            image_width: self.image_width,
            image_length: self.image_length,
            tile_width: self.tile_width,
            tile_length: self.tile_length,
            tile_offsets: self.tile_offsets@,
            tile_byte_counts: self.tile_byte_counts@,
            is_little_endian: self.is_little_endian,
            bits_per_sample: self.bits_per_sample,
            sample_format: self.sample_format,
            samples_per_pixel: self.samples_per_pixel,
            compression: self.compression,
            predictor: self.predictor,
            nodata_text: opt_bytes_view(self.nodata_text),
            pixel_scale: self.pixel_scale@,
            tiepoint: self.tiepoint@,
            model_transformation: self.model_transformation@,
            epsg: self.epsg,
        }
    }
}

/// Metadata before any tag is read: every field zero / empty.
pub open spec fn empty_meta(le: bool) -> CogMetaView {
    CogMetaView {
        image_width: 0,
        image_length: 0,
        tile_width: 0,
        tile_length: 0,
        tile_offsets: Seq::empty(),
        tile_byte_counts: Seq::empty(),
        is_little_endian: le,
        bits_per_sample: 0,
        sample_format: 0,
        samples_per_pixel: 0,
        compression: 0,
        predictor: 0,
        nodata_text: None,
        pixel_scale: Seq::empty(),
        tiepoint: Seq::empty(),
        model_transformation: Seq::empty(),
        epsg: None,
    }
}

/// TIFF defaults for tags that were absent (left at zero).
pub open spec fn with_defaults(m: CogMetaView) -> CogMetaView {
    CogMetaView {
        bits_per_sample: if m.bits_per_sample == 0 { 32 } else { m.bits_per_sample },
        sample_format: if m.sample_format == 0 { 1 } else { m.sample_format },
        samples_per_pixel: if m.samples_per_pixel == 0 { 1 } else { m.samples_per_pixel },
        compression: if m.compression == 0 { 1 } else { m.compression },
        predictor: if m.predictor == 0 { 1 } else { m.predictor },
        ..m
    }
}

/// Field layout of the 12-byte IFD entry at `off`.
pub open spec fn entry_tag(b: Seq<u8>, off: int, le: bool) -> int {
    u16_at(b, off, le)
}

pub open spec fn entry_type(b: Seq<u8>, off: int, le: bool) -> int {
    u16_at(b, off + 2, le)
}

pub open spec fn entry_count(b: Seq<u8>, off: int, le: bool) -> int {
    u32_at(b, off + 4, le)
}

pub open spec fn entry_value(b: Seq<u8>, off: int, le: bool) -> int {
    u32_at(b, off + 8, le)
}

/// The single value held in the entry's value field: a SHORT (type 3) lives in
/// its first two bytes, anything else is read as a LONG.
pub open spec fn entry_single(b: Seq<u8>, off: int, le: bool) -> int {
    if entry_type(b, off, le) == 3 {
        u16_at(b, off + 8, le)
    } else {
        entry_value(b, off, le)
    }
}

/// Up to `count` SHORTs (`short`) or LONGs read from `ptr` onward; reading stops
/// as soon as fewer than four bytes remain at the read position.
pub open spec fn int_array(b: Seq<u8>, le: bool, short: bool, ptr: int, count: nat) -> Seq<u64>
    decreases count,
{
    if count == 0 || ptr + 4 > b.len() {
        Seq::empty()
    } else {
        let v = if short { u16_at(b, ptr, le) } else { u32_at(b, ptr, le) };
        seq![v as u64] + int_array(b, le, short, ptr + if short { 2int } else { 4int }, (count - 1) as nat)
    }
}

/// Up to `count` 8-byte words (DOUBLE bit patterns) read from `ptr` onward.
pub open spec fn word_array(b: Seq<u8>, le: bool, ptr: int, count: nat) -> Seq<u64>
    decreases count,
{
    if count == 0 || ptr + 8 > b.len() {
        Seq::empty()
    } else {
        seq![u64_at(b, ptr, le) as u64] + word_array(b, le, ptr + 8, (count - 1) as nat)
    }
}

/// Up to `count` SHORTs read from `ptr` onward.
pub open spec fn short_array(b: Seq<u8>, le: bool, ptr: int, count: nat) -> Seq<u16>
    decreases count,
{
    if count == 0 || ptr + 2 > b.len() {
        Seq::empty()
    } else {
        seq![u16_at(b, ptr, le) as u16] + short_array(b, le, ptr + 2, (count - 1) as nat)
    }
}

/// EPSG code declared by a GeoKeyDirectory: the value of the last
/// ProjectedCSType (3072) or GeographicType (2048) key stored inline
/// (location 0), scanning the 4-short key entries that follow the 4-short header.
pub open spec fn geokey_epsg(keys: Seq<u16>, i: int, cur: Option<u32>) -> Option<u32>
    decreases keys.len() - i,
{
    if i < 0 || i + 4 > keys.len() {
        cur
    } else {
        let next = if (keys[i] == 3072 || keys[i] == 2048) && keys[i + 1] == 0 {
            Some(keys[i + 3] as u32)
        } else {
            cur
        };
        geokey_epsg(keys, i + 4, next)
    }
}

/// Entry `e` of a GeoKeyDirectory (the four shorts after the four-short
/// header, `[key id, location, count, value]` each) declares the CRS code
/// inline: key ProjectedCSType (3072) or GeographicType (2048), location 0.
pub open spec fn declares_crs(keys: Seq<u16>, e: int) -> bool {
    &&& 0 <= e
    &&& 4 + 4 * e + 4 <= keys.len()
    &&& keys[4 + 4 * e] == 3072 || keys[4 + 4 * e] == 2048
    &&& keys[4 + 4 * e + 1] == 0
}

proof fn lemma_geokey_none_from(keys: Seq<u16>, e: nat, cur: Option<u32>)
    requires
        forall|f: int| f >= e ==> !declares_crs(keys, f),
    ensures
        geokey_epsg(keys, 4 + 4 * (e as int), cur) == cur,
    decreases keys.len() - (4 + 4 * (e as int)),
{
    let i: int = 4 + 4 * (e as int);
    if i + 4 <= keys.len() {
        assert(!declares_crs(keys, e as int));
        lemma_geokey_none_from(keys, e + 1, cur);
    }
}

proof fn lemma_geokey_last_from(keys: Seq<u16>, e: nat, last: nat, cur: Option<u32>)
    requires
        e <= last,
        declares_crs(keys, last as int),
        forall|f: int| f > last ==> !declares_crs(keys, f),
    ensures
        geokey_epsg(keys, 4 + 4 * (e as int), cur) == Some(keys[4 + 4 * (last as int) + 3] as u32),
    decreases last - e,
{
    let i: int = 4 + 4 * (e as int);
    if e == last {
        lemma_geokey_none_from(keys, e + 1, Some(keys[4 + 4 * (last as int) + 3] as u32));
    } else {
        let next = if (keys[i] == 3072 || keys[i] == 2048) && keys[i + 1] == 0 {
            Some(keys[i + 3] as u32)
        } else {
            cur
        };
        lemma_geokey_last_from(keys, e + 1, last, next);
    }
}

/// The EPSG code read from a GeoKeyDirectory is the inline value of its last
/// entry keyed ProjectedCSType (3072) or GeographicType (2048) — projected and
/// geographic codes alike — and the code read before when no entry declares one.
pub proof fn lemma_geokey_epsg_declared(keys: Seq<u16>, cur: Option<u32>, last: nat)
    ensures
        declares_crs(keys, last as int) && (forall|f: int| f > last ==> !declares_crs(keys, f))
            ==> geokey_epsg(keys, 4, cur) == Some(keys[4 + 4 * (last as int) + 3] as u32),
        (forall|f: int| !declares_crs(keys, f)) ==> geokey_epsg(keys, 4, cur) == cur,
{
    if declares_crs(keys, last as int) && (forall|f: int| f > last ==> !declares_crs(keys, f)) {
        lemma_geokey_last_from(keys, 0, last, cur);
    }
    if forall|f: int| !declares_crs(keys, f) {
        lemma_geokey_none_from(keys, 0, cur);
    }
}

/// Raw bytes of an ASCII tag: inline in the value field when at most four bytes,
/// otherwise at the value offset, clipped to the buffer.
pub open spec fn ascii_raw(b: Seq<u8>, off: int, count: int, val: int) -> Seq<u8> {
    if count <= 4 {
        b.subrange(off + 8, off + 8 + count)
    } else {
        let end = if val + count < b.len() { val + count } else { b.len() as int };
        if val > end {
            Seq::empty()
        } else {
            b.subrange(val, end)
        }
    }
}

/// Effect of one IFD entry on the metadata read so far.
pub open spec fn apply_entry(m: CogMetaView, b: Seq<u8>, le: bool, off: int) -> CogMetaView {
    let tag = entry_tag(b, off, le);
    let typ = entry_type(b, off, le);
    let count = entry_count(b, off, le);
    let val = entry_value(b, off, le);
    let sv = entry_single(b, off, le);
    if tag == 256 {
        CogMetaView { image_width: sv as u32, ..m }
    } else if tag == 257 {
        CogMetaView { image_length: sv as u32, ..m }
    } else if tag == 322 {
        CogMetaView { tile_width: sv as u32, ..m }
    } else if tag == 323 {
        CogMetaView { tile_length: sv as u32, ..m }
    } else if tag == 258 {
        CogMetaView { bits_per_sample: (sv % 65536) as u16, ..m }
    } else if tag == 277 {
        CogMetaView { samples_per_pixel: (sv % 65536) as u16, ..m }
    } else if tag == 339 {
        CogMetaView { sample_format: (sv % 65536) as u16, ..m }
    } else if tag == 259 {
        CogMetaView { compression: (sv % 65536) as u16, ..m }
    } else if tag == 317 {
        CogMetaView { predictor: (sv % 65536) as u16, ..m }
    } else if tag == 42113 {
        let raw = ascii_raw(b, off, count, val);
        if valid_utf8(raw) {
            CogMetaView { nodata_text: Some(raw), ..m }
        } else {
            m
        }
    } else if tag == 33550 {
        CogMetaView { pixel_scale: word_array(b, le, val, count as nat), ..m }
    } else if tag == 33922 {
        CogMetaView { tiepoint: word_array(b, le, val, count as nat), ..m }
    } else if tag == 34264 {
        CogMetaView { model_transformation: word_array(b, le, val, count as nat), ..m }
    } else if tag == 34735 {
        CogMetaView { epsg: geokey_epsg(short_array(b, le, val, count as nat), 4, m.epsg), ..m }
    } else if tag == 324 {
        if count == 1 {
            CogMetaView { tile_offsets: m.tile_offsets.push(sv as u64), ..m }
        } else {
            CogMetaView { tile_offsets: int_array(b, le, typ == 3, val, count as nat), ..m }
        }
    } else if tag == 325 {
        if count == 1 {
            CogMetaView { tile_byte_counts: m.tile_byte_counts.push(sv as u64), ..m }
        } else {
            CogMetaView { tile_byte_counts: int_array(b, le, typ == 3, val, count as nat), ..m }
        }
    } else {
        m
    }
}

/// The first `k` entries of the IFD at `ifd`, applied in order.
pub open spec fn apply_entries(b: Seq<u8>, le: bool, ifd: int, k: nat) -> CogMetaView
    decreases k,
{
    if k == 0 {
        empty_meta(le)
    } else {
        apply_entry(apply_entries(b, le, ifd, (k - 1) as nat), b, le, ifd + 2 + 12 * (k - 1))
    }
}

/// Number of IFD entries read: the declared count, cut short at the first
/// entry that does not fit entirely in the buffer.
pub open spec fn entries_read(b: Seq<u8>, le: bool, ifd: int) -> nat {
    let declared = u16_at(b, ifd, le);
    let fitting = (b.len() - ifd - 2) / 12;
    if declared < fitting { declared as nat } else { fitting as nat }
}

/// What a COG header buffer describes, or `None` when it is not a TIFF file
/// or its first IFD lies outside the buffer.
pub open spec fn cog_metadata_of(b: Seq<u8>) -> Option<CogMetaView> {
    if !valid_tiff_header(b) {
        None
    } else {
        let le = is_le_mark(b);
        let ifd = u32_at(b, 4, le);
        if ifd + 2 > b.len() {
            None
        } else {
            Some(with_defaults(apply_entries(b, le, ifd, entries_read(b, le, ifd))))
        }
    }
}

/// Reading entries never changes the byte order.
proof fn lemma_entries_keep_order(b: Seq<u8>, le: bool, ifd: int, k: nat)
    ensures
        apply_entries(b, le, ifd, k).is_little_endian == le,
    decreases k,
{
    if k > 0 {
        lemma_entries_keep_order(b, le, ifd, (k - 1) as nat);
    }
}

/// Metadata is read only from a buffer with a valid TIFF header, in the byte
/// order that header declares.
pub proof fn lemma_metadata_has_header(b: Seq<u8>)
    requires
        cog_metadata_of(b) is Some,
    ensures
        valid_tiff_header(b),
        cog_metadata_of(b).unwrap().is_little_endian == is_le_mark(b),
{
    let le = is_le_mark(b);
    let ifd = u32_at(b, 4, le);
    lemma_entries_keep_order(b, le, ifd, entries_read(b, le, ifd));
}

} // verus!

verus! {

/// `bytes` is well-formed UTF-8 (`std::str::from_utf8` succeeds on it).
#[verifier::external_body]
fn is_valid_utf8(bytes: &[u8]) -> (r: bool)
    ensures
        r == valid_utf8(bytes@),
{
    std::str::from_utf8(bytes).is_ok()
}

fn read_int_array(b: &[u8], le: bool, short: bool, start: u32, count: u32) -> (r: Vec<u64>)
    ensures
        r@ == int_array(b@, le, short, start as int, count as nat),
{
    let len = b.len();
    let mut res: Vec<u64> = Vec::new();
    let mut ptr: usize = start as usize;
    let mut i: u32 = 0;
    while i < count
        invariant
            len == b@.len(),
            i <= count,
            res@ + int_array(b@, le, short, ptr as int, (count - i) as nat) == int_array(
                b@,
                le,
                short,
                start as int,
                count as nat,
            ),
        ensures
            res@ == int_array(b@, le, short, start as int, count as nat),
        decreases count - i,
    {
        if ptr > len || len - ptr < 4 {
            assert(int_array(b@, le, short, ptr as int, (count - i) as nat) =~= Seq::<u64>::empty());
            assert(res@ + Seq::<u64>::empty() =~= res@);
            break;
        }
        let v: u64 = if short {
            read_u16(b, ptr, le) as u64
        } else {
            read_u32(b, ptr, le) as u64
        };
        let ghost old_res = res@;
        res.push(v);
        assert(res@ == old_res + seq![v]);
        ptr = if short { ptr + 2 } else { ptr + 4 };
        i = i + 1;
    }
    res
}

fn read_word_array(b: &[u8], le: bool, start: u32, count: u32) -> (r: Vec<u64>)
    ensures
        r@ == word_array(b@, le, start as int, count as nat),
{
    let len = b.len();
    let mut res: Vec<u64> = Vec::new();
    let mut ptr: usize = start as usize;
    let mut i: u32 = 0;
    while i < count
        invariant
            len == b@.len(),
            i <= count,
            res@ + word_array(b@, le, ptr as int, (count - i) as nat) == word_array(
                b@,
                le,
                start as int,
                count as nat,
            ),
        ensures
            res@ == word_array(b@, le, start as int, count as nat),
        decreases count - i,
    {
        if ptr > len || len - ptr < 8 {
            assert(word_array(b@, le, ptr as int, (count - i) as nat) =~= Seq::<u64>::empty());
            assert(res@ + Seq::<u64>::empty() =~= res@);
            break;
        }
        let v = read_u64(b, ptr, le);
        let ghost old_res = res@;
        res.push(v);
        assert(res@ == old_res + seq![v]);
        ptr = ptr + 8;
        i = i + 1;
    }
    res
}

fn read_short_array(b: &[u8], le: bool, start: u32, count: u32) -> (r: Vec<u16>)
    ensures
        r@ == short_array(b@, le, start as int, count as nat),
{
    let len = b.len();
    let mut res: Vec<u16> = Vec::new();
    let mut ptr: usize = start as usize;
    let mut i: u32 = 0;
    while i < count
        invariant
            len == b@.len(),
            i <= count,
            res@ + short_array(b@, le, ptr as int, (count - i) as nat) == short_array(
                b@,
                le,
                start as int,
                count as nat,
            ),
        ensures
            res@ == short_array(b@, le, start as int, count as nat),
        decreases count - i,
    {
        if ptr > len || len - ptr < 2 {
            assert(short_array(b@, le, ptr as int, (count - i) as nat) =~= Seq::<u16>::empty());
            assert(res@ + Seq::<u16>::empty() =~= res@);
            break;
        }
        let v = read_u16(b, ptr, le);
        let ghost old_res = res@;
        res.push(v);
        assert(res@ == old_res + seq![v]);
        ptr = ptr + 2;
        i = i + 1;
    }
    res
}

fn scan_geokeys(keys: &Vec<u16>, cur: Option<u32>) -> (r: Option<u32>)
    ensures
        r == geokey_epsg(keys@, 4, cur),
{
    let len = keys.len();
    let mut i: usize = 4;
    let mut epsg = cur;
    while i <= len && len - i >= 4
        invariant
            len == keys@.len(),
            i >= 4,
            geokey_epsg(keys@, i as int, epsg) == geokey_epsg(keys@, 4, cur),
        decreases len - i,
    {
        if (keys[i] == 3072 || keys[i] == 2048) && keys[i + 1] == 0 {
            epsg = Some(keys[i + 3] as u32);
        }
        i = i + 4;
    }
    epsg
}

fn read_ascii_raw(b: &[u8], off: usize, count: u32, val: u32) -> (r: Vec<u8>)
    requires
        off + 12 <= b@.len(),
    ensures
        r@ == ascii_raw(b@, off as int, count as int, val as int),
{
    let len = b.len();
    if count <= 4 {
        slice_to_vec(slice_subrange(b, off + 8, off + 8 + count as usize))
    } else {
        let start = val as usize;
        let end = if start <= len && len - start > count as usize {
            start + count as usize
        } else {
            len
        };
        if start > end {
            Vec::new()
        } else {
            slice_to_vec(slice_subrange(b, start, end))
        }
    }
}

/// Apply the IFD entry at `off` to `meta`.
fn apply_ifd_entry(meta: &mut CogMetadata, b: &[u8], le: bool, off: usize)
    requires
        off + 12 <= b@.len(),
    ensures
        final(meta)@ == apply_entry(old(meta)@, b@, le, off as int),
{
    let _n = b.len();
    let tag = read_u16(b, off, le);
    let typ = read_u16(b, off + 2, le);
    let count = read_u32(b, off + 4, le);
    let val = read_u32(b, off + 8, le);
    let sv: u32 = if typ == 3 {
        read_u16(b, off + 8, le) as u32
    } else {
        val
    };
    let sv16: u16 = (sv % 65536) as u16;
    if tag == 256 {
        meta.image_width = sv;
    } else if tag == 257 {
        meta.image_length = sv;
    } else if tag == 322 {
        meta.tile_width = sv;
    } else if tag == 323 {
        meta.tile_length = sv;
    } else if tag == 258 {
        meta.bits_per_sample = sv16;
    } else if tag == 277 {
        meta.samples_per_pixel = sv16;
    } else if tag == 339 {
        meta.sample_format = sv16;
    } else if tag == 259 {
        meta.compression = sv16;
    } else if tag == 317 {
        meta.predictor = sv16;
    } else if tag == 42113 {
        let raw = read_ascii_raw(b, off, count, val);
        if is_valid_utf8(raw.as_slice()) {
            meta.nodata_text = Some(raw);
        }
    } else if tag == 33550 {
        meta.pixel_scale = read_word_array(b, le, val, count);
    } else if tag == 33922 {
        meta.tiepoint = read_word_array(b, le, val, count);
    } else if tag == 34264 {
        meta.model_transformation = read_word_array(b, le, val, count);
    } else if tag == 34735 {
        let keys = read_short_array(b, le, val, count);
        meta.epsg = scan_geokeys(&keys, meta.epsg);
    } else if tag == 324 {
        if count == 1 {
            meta.tile_offsets.push(sv as u64);
        } else {
            meta.tile_offsets = read_int_array(b, le, typ == 3, val, count);
        }
    } else if tag == 325 {
        if count == 1 {
            meta.tile_byte_counts.push(sv as u64);
        } else {
            meta.tile_byte_counts = read_int_array(b, le, typ == 3, val, count);
        }
    }
}

/// Parse the first image file directory of a COG header buffer.
pub fn parse_cog_metadata(buffer: &[u8]) -> (r: Result<CogMetadata, String>)
    ensures
        r is Ok <==> cog_metadata_of(buffer@) is Some,
        r matches Ok(m) ==> Some(m@) == cog_metadata_of(buffer@),
        !valid_tiff_header(buffer@) ==> (r matches Err(e) && e@ == header_error(buffer@)),
        valid_tiff_header(buffer@) && cog_metadata_of(buffer@) is None ==> (r matches Err(e)
            && e@ == "IFD offset out of bounds"@),
{
    let header = match parse_tiff_header(buffer) {
        Ok(h) => h,
        Err(e) => return Err(e),
    };
    let le = header.is_little_endian;
    let len = buffer.len();
    let ifd = header.first_ifd_offset as usize;
    if ifd > len || len - ifd < 2 {
        return Err(String::from_str("IFD offset out of bounds"));
    }
    let mut meta = CogMetadata {
        image_width: 0,
        image_length: 0,
        tile_width: 0,
        tile_length: 0,
        tile_offsets: Vec::new(),
        tile_byte_counts: Vec::new(),
        is_little_endian: le,
        bits_per_sample: 0,
        sample_format: 0,
        samples_per_pixel: 0,
        compression: 0,
        predictor: 0,
        nodata_text: None,
        pixel_scale: Vec::new(),
        tiepoint: Vec::new(),
        model_transformation: Vec::new(),
        epsg: None,
    };
    assert(meta@ == empty_meta(le));
    let num_entries = read_u16(buffer, ifd, le);
    let mut offset: usize = ifd + 2;
    let mut k: u16 = 0;
    while k < num_entries
        invariant
            len == buffer@.len(),
            ifd + 2 <= len,
            le == is_le_mark(buffer@),
            k <= num_entries,
            num_entries == u16_at(buffer@, ifd as int, le),
            offset == ifd + 2 + 12 * k,
            offset <= len,
            k <= entries_read(buffer@, le, ifd as int),
            meta@ == apply_entries(buffer@, le, ifd as int, k as nat),
        ensures
            meta@ == apply_entries(buffer@, le, ifd as int, entries_read(buffer@, le, ifd as int)),
        decreases num_entries - k,
    {
        if len - offset < 12 {
            assert(k == entries_read(buffer@, le, ifd as int));
            break;
        }
        apply_ifd_entry(&mut meta, buffer, le, offset);
        offset = offset + 12;
        k = k + 1;
    }
    if meta.bits_per_sample == 0 {
        meta.bits_per_sample = 32;
    }
    if meta.sample_format == 0 {
        meta.sample_format = 1;
    }
    if meta.samples_per_pixel == 0 {
        meta.samples_per_pixel = 1;
    }
    if meta.compression == 0 {
        meta.compression = 1;
    }
    if meta.predictor == 0 {
        meta.predictor = 1;
    }
    Ok(meta)
}

} // verus!

verus! {

/// Supported tile compressions of a COG.
#[derive(Debug, PartialEq, Eq, Structural)]
pub enum CogCompression {
    /// Tiles are stored raw (TIFF Compression = 1).
    Uncompressed,
    /// Tiles are zlib/Deflate streams (TIFF Compression = 8 or 32946).
    Deflate,
}

/// Zarr kind letter of a TIFF SampleFormat: float, signed or unsigned integer.
pub open spec fn dtype_kind(sample_format: u16) -> Option<char> {
    if sample_format == 3 {
        Some('f')
    } else if sample_format == 2 {
        Some('i')
    } else if sample_format == 1 {
        Some('u')
    } else {
        None
    }
}

/// Element width in bytes of a supported BitsPerSample.
pub open spec fn dtype_width(bits: u16) -> Option<int> {
    if bits == 8 {
        Some(1)
    } else if bits == 16 {
        Some(2)
    } else if bits == 32 {
        Some(4)
    } else if bits == 64 {
        Some(8)
    } else {
        None
    }
}

/// Byte-order prefix of a numpy dtype string: `|` for single bytes.
pub open spec fn dtype_endian(m: CogMetaView) -> char {
    if m.bits_per_sample <= 8 {
        '|'
    } else if m.is_little_endian {
        '<'
    } else {
        '>'
    }
}

/// Numpy / Zarr-V2 dtype string of one band of a COG, or the reason it has none.
pub open spec fn band_dtype_of(m: CogMetaView) -> Result<Seq<char>, Seq<char>> {
    match dtype_kind(m.sample_format) {
        None => Err("unsupported TIFF SampleFormat "@ + decimal(m.sample_format as nat)),
        Some(kind) => match dtype_width(m.bits_per_sample) {
            None => Err("unsupported BitsPerSample "@ + decimal(m.bits_per_sample as nat)),
            Some(w) => if kind == 'f' && w < 4 {
                Err("unsupported float width "@ + decimal(m.bits_per_sample as nat) + " bits"@)
            } else {
                Ok(seq![dtype_endian(m), kind, digit_char(w)])
            },
        },
    }
}

/// Numpy / Zarr-V2 dtype string of a single-band COG, or the reason it has none.
pub open spec fn zarr_dtype_of(m: CogMetaView) -> Result<Seq<char>, Seq<char>> {
    if m.samples_per_pixel != 1 {
        Err("multi-band COGs not yet supported (SamplesPerPixel="@ + decimal(
            m.samples_per_pixel as nat,
        ) + ")"@)
    } else {
        band_dtype_of(m)
    }
}

/// Tile compression of a COG, or the reason it is unsupported.
pub open spec fn compression_of(m: CogMetaView) -> Result<CogCompression, Seq<char>> {
    if m.compression != 1 && m.compression != 8 && m.compression != 32946 {
        Err("unsupported COG compression "@ + decimal(m.compression as nat)
            + " (only uncompressed and Deflate are supported)"@)
    } else if m.predictor != 1 {
        Err("unsupported COG predictor "@ + decimal(m.predictor as nat)
            + " (only predictor=1/none is supported)"@)
    } else if m.compression == 1 {
        Ok(CogCompression::Uncompressed)
    } else {
        Ok(CogCompression::Deflate)
    }
}

pub open spec fn result_string_view<T>(r: Result<T, String>) -> Result<T, Seq<char>> {
    match r {
        Ok(v) => Ok(v),
        Err(e) => Err(e@),
    }
}

pub open spec fn result_strings_view(r: Result<String, String>) -> Result<Seq<char>, Seq<char>> {
    match r {
        Ok(v) => Ok(v@),
        Err(e) => Err(e@),
    }
}

impl CogMetadata {
    /// Numpy/Zarr-V2 dtype string for this COG's single band, e.g. `<i2`.
    /// Errors on multi-band or unsupported bit-depth/sample-format combinations.
    pub fn zarr_dtype(&self) -> (r: Result<String, String>)
        ensures
            result_strings_view(r) == zarr_dtype_of(self@),
    {
        if self.samples_per_pixel != 1 {
            let mut msg: Vec<char> = Vec::new();
            push_str(&mut msg, "multi-band COGs not yet supported (SamplesPerPixel=");
            push_decimal(&mut msg, self.samples_per_pixel as u64);
            push_str(&mut msg, ")");
            return Err(string_of(msg.as_slice()));
        }
        self.band_dtype()
    }

    /// Numpy/Zarr-V2 dtype string of one band, whatever the number of bands.
    pub fn band_dtype(&self) -> (r: Result<String, String>)
        ensures
            result_strings_view(r) == band_dtype_of(self@),
    {
        let mut msg: Vec<char> = Vec::new();
        let kind: char = if self.sample_format == 3 {
            'f'
        } else if self.sample_format == 2 {
            'i'
        } else if self.sample_format == 1 {
            'u'
        } else {
            push_str(&mut msg, "unsupported TIFF SampleFormat ");
            push_decimal(&mut msg, self.sample_format as u64);
            return Err(string_of(msg.as_slice()));
        };
        let width: u64 = if self.bits_per_sample == 8 {
            1
        } else if self.bits_per_sample == 16 {
            2
        } else if self.bits_per_sample == 32 {
            4
        } else if self.bits_per_sample == 64 {
            8
        } else {
            push_str(&mut msg, "unsupported BitsPerSample ");
            push_decimal(&mut msg, self.bits_per_sample as u64);
            return Err(string_of(msg.as_slice()));
        };
        if kind == 'f' && width < 4 {
            push_str(&mut msg, "unsupported float width ");
            push_decimal(&mut msg, self.bits_per_sample as u64);
            push_str(&mut msg, " bits");
            return Err(string_of(msg.as_slice()));
        }
        let endian: char = if self.bits_per_sample <= 8 {
            '|'
        } else if self.is_little_endian {
            '<'
        } else {
            '>'
        };
        let mut out: Vec<char> = Vec::new();
        out.push(endian);
        out.push(kind);
        out.push(digit_of(width));
        assert(out@ =~= seq![endian, kind, digit_char(width as int)]);
        Ok(string_of(out.as_slice()))
    }

    /// Resolve the TIFF Compression + Predictor tags to a supported kind, or error.
    pub fn compression_kind(&self) -> (r: Result<CogCompression, String>)
        ensures
            result_string_view(r) == compression_of(self@),
    {
        let mut msg: Vec<char> = Vec::new();
        let comp = if self.compression == 1 {
            CogCompression::Uncompressed
        } else if self.compression == 8 || self.compression == 32946 {
            CogCompression::Deflate
        } else {
            push_str(&mut msg, "unsupported COG compression ");
            push_decimal(&mut msg, self.compression as u64);
            push_str(&mut msg, " (only uncompressed and Deflate are supported)");
            return Err(string_of(msg.as_slice()));
        };
        if self.predictor != 1 {
            push_str(&mut msg, "unsupported COG predictor ");
            push_decimal(&mut msg, self.predictor as u64);
            push_str(&mut msg, " (only predictor=1/none is supported)");
            return Err(string_of(msg.as_slice()));
        }
        Ok(comp)
    }

    /// `EPSG:<code>` when the GeoKeyDirectory declared an EPSG code.
    pub fn crs(&self) -> (r: Option<String>)
        ensures
            r is Some <==> self.epsg is Some,
            r matches Some(s) ==> s@ == "EPSG:"@ + decimal(self.epsg.unwrap() as nat),
    {
        match self.epsg {
            Some(c) => {
                let mut out: Vec<char> = Vec::new();
                push_str(&mut out, "EPSG:");
                push_decimal(&mut out, c as u64);
                Some(string_of(out.as_slice()))
            },
            None => None,
        }
    }

    /// Geographic CRS (EPSG:4326) gives `["lat", "lon"]`, enabling lat/lon pushdown;
    /// any other or absent CRS gives `["y", "x"]`.
    pub fn dim_names(&self) -> (r: Vec<String>)
        ensures
            r@.len() == 2,
            self.epsg == Some(4326u32) ==> r@[0]@ == "lat"@ && r@[1]@ == "lon"@,
            self.epsg != Some(4326u32) ==> r@[0]@ == "y"@ && r@[1]@ == "x"@,
    {
        let mut v: Vec<String> = Vec::new();
        if self.epsg == Some(4326u32) {
            v.push(String::from_str("lat"));
            v.push(String::from_str("lon"));
        } else {
            v.push(String::from_str("y"));
            v.push(String::from_str("x"));
        }
        v
    }
}

} // verus!
