//! A COG exposed as a single Zarr-V2 array: synthesized metadata documents,
//! the mapping of chunk keys to TIFF tiles, and tile decoding.

use std::io::Read;
use vstd::prelude::*;
use crate::cog::{CogMetadata, CogMetaView, CogCompression, compression_of, band_dtype_of, result_string_view};
use crate::text::{
    chars_of, eq_str, parse_usize, push_all, push_decimal, push_decimal_wide, push_str,
    split_char, split_seq, string_of, unsigned_text, decimal, has_prefix, lemma_decimal_roundtrip,
    lemma_decimal_digits, lemma_split_append, lemma_split_plain,
};

verus! {

/// Contents of a zlib (RFC 1950) stream once inflated, or `None` when the
/// bytes are not a valid stream.
pub uninterp spec fn zlib_decompressed(data: Seq<u8>) -> Option<Seq<u8>>;

/// `flate2::read::ZlibDecoder` read to the end: the inflated bytes, or the
/// decoder's error message (whose text is not stated).
#[verifier::external_body]
fn zlib_decode(data: &[u8]) -> (r: Result<Vec<u8>, String>)
    ensures
        r is Ok <==> zlib_decompressed(data@) is Some,
        r matches Ok(v) ==> Some(v@) == zlib_decompressed(data@),
{
    let mut out = Vec::new();
    match flate2::read::ZlibDecoder::new(data).read_to_end(&mut out) {
        Ok(_) => Ok(out),
        Err(e) => Err(e.to_string()),
    }
}

/// A numeric component of a chunk key as `usize::from_str` reads it.
pub open spec fn key_index(s: Seq<char>) -> Option<usize> {
    match unsigned_text(s) {
        Some(v) => if v <= usize::MAX { Some(v as usize) } else { None },
        None => None,
    }
}

/// `(band, tile row, tile column)` named by a chunk key: `y.x` (band 0) or `b.y.x`.
pub open spec fn chunk_key_of(key: Seq<char>) -> Option<(usize, usize, usize)> {
    let parts = split_seq(key, '.');
    if parts.len() == 2 {
        match (key_index(parts[0]), key_index(parts[1])) {
            (Some(y), Some(x)) => Some((0usize, y, x)),
            _ => None,
        }
    } else if parts.len() == 3 {
        match (key_index(parts[0]), key_index(parts[1]), key_index(parts[2])) {
            (Some(b), Some(y), Some(x)) => Some((b, y, x)),
            _ => None,
        }
    } else {
        None
    }
}

/// The band, tile row and tile column a chunk key names.
pub fn parse_chunk_key(key: &str) -> (r: Option<(usize, usize, usize)>)
    ensures
        r == chunk_key_of(key@),
{
    let k = chars_of(key);
    let parts = split_char(k.as_slice(), '.');
    if parts.len() == 2 {
        match (parse_usize(parts[0].as_slice()), parse_usize(parts[1].as_slice())) {
            (Some(y), Some(x)) => Some((0, y, x)),
            _ => None,
        }
    } else if parts.len() == 3 {
        match (
            parse_usize(parts[0].as_slice()),
            parse_usize(parts[1].as_slice()),
            parse_usize(parts[2].as_slice()),
        ) {
            (Some(b), Some(y), Some(x)) => Some((b, y, x)),
            _ => None,
        }
    } else {
        None
    }
}

/// Number of tile columns: `ceil(width / tile_width)`; a zero tile width gives
/// `usize::MAX` (or 0 for a zero-width image), as the floating-point division
/// it stands for saturates.
pub open spec fn tiles_across(width: u32, tile_width: u32) -> int {
    if tile_width == 0 {
        if width == 0 { 0 } else { usize::MAX as int }
    } else {
        (width + tile_width - 1) / (tile_width as int)
    }
}

/// A row of tiles covers the image width and no tile of it lies wholly past
/// the image: the tiles per row are the least `n` with `n * tile_width >=
/// width`, the ceiling of `width / tile_width`.
pub proof fn lemma_tiles_across_is_ceiling(width: u32, tile_width: u32)
    requires
        tile_width > 0,
    ensures
        tiles_across(width, tile_width) >= 0,
        tiles_across(width, tile_width) * tile_width >= width,
        (tiles_across(width, tile_width) - 1) * tile_width < width,
{
    let n = tiles_across(width, tile_width);
    let t = tile_width as int;
    let num = width + t - 1;
    vstd::arithmetic::div_mod::lemma_fundamental_div_mod(num, t);
    let r = num % t;
    assert(num == t * n + r);
    assert(0 <= r < t);
    assert(n >= 0) by {
        vstd::arithmetic::div_mod::lemma_div_pos_is_pos(num, t);
    }
    assert(n * t >= width) by (nonlinear_arith)
        requires
            num == t * n + r,
            r < t,
            num == width + t - 1,
    ;
    assert((n - 1) * t < width) by (nonlinear_arith)
        requires
            num == t * n + r,
            r >= 0,
            num == width + t - 1,
    ;
}

/// What a store key asks for.
#[derive(Clone, Copy, Debug, PartialEq, Eq, Structural)]
pub enum CogRead {
    ZMetadata,
    ZArray,
    ZAttrs,
    /// Bytes `[offset, end)` of the COG, holding the tile of the given band.
    Tile { offset: u64, end: u64, band: usize },
    /// Nothing is stored under the key.
    Missing,
}

/// The read a key resolves to for COG metadata `m`: the metadata documents by
/// name, a tile by `y.x` / `b.y.x` (row-major tile index), or nothing.
/// Keys whose tile index or byte range does not fit the integer types, and
/// tiles without a byte count, resolve to nothing.
pub open spec fn cog_read_of(m: CogMetaView, key: Seq<char>) -> CogRead {
    if key == ".zmetadata"@ {
        CogRead::ZMetadata
    } else if key == ".zarray"@ {
        CogRead::ZArray
    } else if key == ".zattrs"@ {
        CogRead::ZAttrs
    } else {
        match chunk_key_of(key) {
            Some((b, y, x)) => {
                let flat = y * tiles_across(m.image_width, m.tile_width) + x;
                if flat <= usize::MAX && flat < m.tile_offsets.len() && flat < m.tile_byte_counts.len()
                    && m.tile_offsets[flat] + m.tile_byte_counts[flat] <= u64::MAX {
                    CogRead::Tile {
                        offset: m.tile_offsets[flat],
                        end: (m.tile_offsets[flat] + m.tile_byte_counts[flat]) as u64,
                        band: b,
                    }
                } else {
                    CogRead::Missing
                }
            },
            None => CogRead::Missing,
        }
    }
}

/// The tile a Zarr reader asks for by chunk key is the one the COG stores at
/// that place: the key `y.x` (single band) or `b.y.x` (band `b`) of tile row
/// `y` and column `x` reads the bytes of tile `y * tiles_across + x`.
pub proof fn lemma_tile_key_reads_tile(m: CogMetaView, b: nat, y: nat, x: nat)
    requires
        b <= usize::MAX,
        y <= usize::MAX,
        x <= usize::MAX,
        y * tiles_across(m.image_width, m.tile_width) + x < m.tile_offsets.len(),
        y * tiles_across(m.image_width, m.tile_width) + x < m.tile_byte_counts.len(),
        y * tiles_across(m.image_width, m.tile_width) + x <= usize::MAX,
        ({
            let f = y * tiles_across(m.image_width, m.tile_width) + x;
            m.tile_offsets[f] + m.tile_byte_counts[f] <= u64::MAX
        }),
    ensures
        ({
            let f = y * tiles_across(m.image_width, m.tile_width) + x;
            let tile = |band: usize| CogRead::Tile {
                offset: m.tile_offsets[f],
                end: (m.tile_offsets[f] + m.tile_byte_counts[f]) as u64,
                band,
            };
            &&& cog_read_of(m, decimal(y) + "."@ + decimal(x)) == tile(0)
            &&& cog_read_of(m, decimal(b) + "."@ + decimal(y) + "."@ + decimal(x)) == tile(b as usize)
        }),
{
    reveal_strlit(".");
    reveal_strlit(".zmetadata");
    reveal_strlit(".zarray");
    reveal_strlit(".zattrs");
    lemma_decimal_roundtrip(b);
    lemma_decimal_roundtrip(y);
    lemma_decimal_roundtrip(x);
    lemma_decimal_digits(b);
    lemma_decimal_digits(y);
    lemma_decimal_digits(x);
    let dy = decimal(y);
    let dx = decimal(x);
    let db = decimal(b);
    lemma_split_plain(dy, '.');
    lemma_split_plain(db, '.');
    lemma_split_append(dy, '.', dx);
    let k2 = dy + "."@ + dx;
    assert(k2 =~= dy + seq!['.'] + dx);
    assert(split_seq(k2, '.') =~= seq![dy, dx]);
    let k3 = db + "."@ + dy + "."@ + dx;
    lemma_split_append(db, '.', dy);
    assert(split_seq(db + seq!['.'] + dy, '.') =~= seq![db, dy]);
    lemma_split_append(db + seq!['.'] + dy, '.', dx);
    assert(k3 =~= (db + seq!['.'] + dy) + seq!['.'] + dx);
    assert(split_seq(k3, '.') =~= seq![db, dy, dx]);
    assert(k2 != ".zmetadata"@ && k2 != ".zarray"@ && k2 != ".zattrs"@) by {
        assert(k2[0] == dy[0]);
        assert(crate::text::is_digit(dy[0]));
    }
    assert(k3 != ".zmetadata"@ && k3 != ".zarray"@ && k3 != ".zattrs"@) by {
        assert(k3[0] == db[0]);
        assert(crate::text::is_digit(db[0]));
    }
}

/// The first `pixels` pixels' bytes `[off, off + width)` of an interleaved
/// buffer with `stride` bytes per pixel, concatenated.
pub open spec fn deinterleave(d: Seq<u8>, stride: int, off: int, width: int, pixels: nat) -> Seq<u8>
    decreases pixels,
{
    if pixels == 0 {
        Seq::empty()
    } else {
        let p = pixels - 1;
        deinterleave(d, stride, off, width, p as nat) + d.subrange(p * stride + off, p * stride + off + width)
    }
}

/// Bytes per sample of a band.
pub open spec fn sample_bytes(m: CogMetaView) -> int {
    (m.bits_per_sample + 7) / 8
}

/// Expected size of an interleaved tile.
pub open spec fn tile_bytes(m: CogMetaView) -> int {
    m.tile_length * m.tile_width * (sample_bytes(m) * m.samples_per_pixel)
}

/// The bytes of band `band` of a tile given its stored bytes `raw`, or why it
/// cannot be produced.
pub open spec fn tile_data_of(m: CogMetaView, raw: Seq<u8>, band: int) -> Result<Seq<u8>, Seq<char>> {
    match compression_of(m) {
        Err(e) => Err(e),
        Ok(c) => {
            let decoded = if c == CogCompression::Uncompressed {
                Some(raw)
            } else {
                zlib_decompressed(raw)
            };
            match decoded {
                None => Err("deflate decode failed: "@),
                Some(d) => if m.samples_per_pixel <= 1 {
                    Ok(d)
                } else {
                    let bps = sample_bytes(m);
                    let bpp = bps * m.samples_per_pixel;
                    if d.len() != tile_bytes(m) {
                        Err("decoded tile length "@ + decimal(d.len()) + " does not match expected interleaved size "@
                            + decimal(tile_bytes(m) as nat) + " ("@ + decimal(m.tile_width as nat) + "x"@
                            + decimal(m.tile_length as nat) + " pixels x "@ + decimal(bpp as nat)
                            + " bytes/pixel); tile may be truncated or corrupt"@)
                    } else if bps == 0 || band >= m.samples_per_pixel {
                        Err("band "@ + decimal(band as nat) + " is not stored in this tile"@)
                    } else {
                        Ok(deinterleave(d, bpp, band * bps, bps, (d.len() as int / bpp) as nat))
                    }
                },
            }
        },
    }
}

proof fn lemma_prefix_refl(s: Seq<char>)
    ensures
        has_prefix(s, s),
{
    assert(s.subrange(0, s.len() as int) =~= s);
}

proof fn lemma_pixel_slot(len: int, bpp: int, p: int, band: int, bps: int, samples: int)
    requires
        bpp == bps * samples,
        0 <= band < samples,
        bps > 0,
        0 <= p < len / bpp,
    ensures
        p * bpp + band * bps + bps <= len,
        p * bpp + band * bps >= 0,
{
    assert(bpp > 0) by (nonlinear_arith)
        requires
            bpp == bps * samples,
            bps > 0,
            samples > 0,
    ;
    assert(band * bps + bps <= bpp) by (nonlinear_arith)
        requires
            bpp == bps * samples,
            band < samples,
            bps > 0,
    ;
    assert(p * bpp + bpp <= len) by (nonlinear_arith)
        requires
            p < len / bpp,
            bpp > 0,
            p >= 0,
    ;
    assert(p * bpp >= 0 && band * bps >= 0) by (nonlinear_arith)
        requires
            p >= 0,
            bpp > 0,
            band >= 0,
            bps > 0,
    ;
}

/// A COG viewed as a Zarr-V2 array: its parsed tags and the synthesized
/// `.zarray`, `.zattrs` and consolidated `.zmetadata` documents.
#[derive(Debug)]
pub struct CogLayout {
    pub meta: CogMetadata,
    /// Text of the fill value written into `.zarray`.
    pub fill: String,
    pub zarray: String,
    pub zattrs: String,
    pub zmetadata: String,
}

/// Decimal text of the affine transform of a COG: scale and translation of
/// the row and column dimensions.
#[derive(Debug)]
pub struct TransformText {
    pub scale: (String, String),
    pub translation: (String, String),
}

/// Names of the two spatial dimensions: `lat`/`lon` for EPSG:4326, else `y`/`x`.
pub open spec fn dim_name(m: CogMetaView, i: int) -> Seq<char> {
    if m.epsg == Some(4326u32) {
        if i == 0 { "lat"@ } else { "lon"@ }
    } else {
        if i == 0 { "y"@ } else { "x"@ }
    }
}

/// JSON list of the array's dimension names; a multi-band COG gains a leading `band`.
pub open spec fn dims_text(m: CogMetaView) -> Seq<char> {
    if m.samples_per_pixel > 1 {
        "[\"band\", \""@ + dim_name(m, 0) + "\", \""@ + dim_name(m, 1) + "\"]"@
    } else {
        "[\""@ + dim_name(m, 0) + "\", \""@ + dim_name(m, 1) + "\"]"@
    }
}

/// JSON shape of the array: `[bands,rows,cols]` or `[rows,cols]`.
pub open spec fn shape_text(m: CogMetaView) -> Seq<char> {
    if m.samples_per_pixel > 1 {
        "["@ + decimal(m.samples_per_pixel as nat) + ","@ + decimal(m.image_length as nat) + ","@
            + decimal(m.image_width as nat) + "]"@
    } else {
        "["@ + decimal(m.image_length as nat) + ","@ + decimal(m.image_width as nat) + "]"@
    }
}

/// JSON chunk shape: one tile (of one band).
pub open spec fn chunks_text(m: CogMetaView) -> Seq<char> {
    if m.samples_per_pixel > 1 {
        "[1,"@ + decimal(m.tile_length as nat) + ","@ + decimal(m.tile_width as nat) + "]"@
    } else {
        "["@ + decimal(m.tile_length as nat) + ","@ + decimal(m.tile_width as nat) + "]"@
    }
}

/// The `"crs": "EPSG:<code>",` member of the geozarr attributes, when a code is known.
pub open spec fn crs_member(m: CogMetaView) -> Seq<char> {
    match m.epsg {
        Some(c) => "\"crs\": \"EPSG:"@ + decimal(c as nat) + "\","@,
        None => Seq::empty(),
    }
}

/// The `geozarr` attribute object: CRS and affine transform, or `{}` without a transform.
pub open spec fn geozarr_text(m: CogMetaView, t: Option<TransformText>) -> Seq<char> {
    match t {
        Some(t) => "{ "@ + crs_member(m) + " \"spatial_transform\": { \"scale\": ["@ + t.scale.0@ + ", "@
            + t.scale.1@ + "], \"translation\": ["@ + t.translation.0@ + ", "@ + t.translation.1@
            + "] } }"@,
        None => "{}"@,
    }
}

/// The fill value: the NoData value's text, or `0` when the COG declares none.
pub open spec fn fill_text(fill: Option<String>) -> Seq<char> {
    match fill {
        Some(f) => f@,
        None => "0"@,
    }
}

/// The `.zarray` document.
pub open spec fn zarray_text(m: CogMetaView, dtype: Seq<char>, fill: Seq<char>) -> Seq<char> {
    "{\"zarr_format\":2,\"shape\":"@ + shape_text(m) + ",\"chunks\":"@ + chunks_text(m) + ",\"dtype\":\""@
        + dtype + "\",\"compressor\":null,\"fill_value\":"@ + fill
        + ",\"filters\":null,\"order\":\"C\"}"@
}

/// The `.zattrs` document.
pub open spec fn zattrs_text(m: CogMetaView, t: Option<TransformText>) -> Seq<char> {
    "{\"_ARRAY_DIMENSIONS\":"@ + dims_text(m) + ",\"geozarr\":"@ + geozarr_text(m, t) + "}"@
}

/// The consolidated `.zmetadata` document holding both.
pub open spec fn zmetadata_text(zarray: Seq<char>, zattrs: Seq<char>) -> Seq<char> {
    "{\"metadata\":{\".zarray\":"@ + zarray + ",\".zattrs\":"@ + zattrs + "},\"zarr_consolidated_format\":1}"@
}

fn push_dim_name(out: &mut Vec<char>, m: &CogMetadata, i: usize)
    ensures
        final(out)@ == old(out)@ + dim_name(m@, i as int),
{
    if m.epsg == Some(4326u32) {
        if i == 0 { push_str(out, "lat") } else { push_str(out, "lon") }
    } else {
        if i == 0 { push_str(out, "y") } else { push_str(out, "x") }
    }
}

fn dims_json(m: &CogMetadata) -> (r: Vec<char>)
    ensures
        r@ == dims_text(m@),
{
    let mut v: Vec<char> = Vec::new();
    if m.samples_per_pixel > 1 {
        push_str(&mut v, "[\"band\", \"");
    } else {
        push_str(&mut v, "[\"");
    }
    push_dim_name(&mut v, m, 0);
    push_str(&mut v, "\", \"");
    push_dim_name(&mut v, m, 1);
    push_str(&mut v, "\"]");
    v
}

fn shape_json(m: &CogMetadata) -> (r: Vec<char>)
    ensures
        r@ == shape_text(m@),
{
    let mut v: Vec<char> = Vec::new();
    push_str(&mut v, "[");
    if m.samples_per_pixel > 1 {
        push_decimal(&mut v, m.samples_per_pixel as u64);
        push_str(&mut v, ",");
    }
    push_decimal(&mut v, m.image_length as u64);
    push_str(&mut v, ",");
    push_decimal(&mut v, m.image_width as u64);
    push_str(&mut v, "]");
    v
}

fn chunks_json(m: &CogMetadata) -> (r: Vec<char>)
    ensures
        r@ == chunks_text(m@),
{
    let mut v: Vec<char> = Vec::new();
    if m.samples_per_pixel > 1 {
        push_str(&mut v, "[1,");
    } else {
        push_str(&mut v, "[");
    }
    push_decimal(&mut v, m.tile_length as u64);
    push_str(&mut v, ",");
    push_decimal(&mut v, m.tile_width as u64);
    push_str(&mut v, "]");
    v
}

fn geozarr_json(m: &CogMetadata, t: &Option<TransformText>) -> (r: Vec<char>)
    ensures
        r@ == geozarr_text(m@, *t),
{
    let mut v: Vec<char> = Vec::new();
    match t {
        Some(t) => {
            push_str(&mut v, "{ ");
            match m.epsg {
                Some(c) => {
                    push_str(&mut v, "\"crs\": \"EPSG:");
                    push_decimal(&mut v, c as u64);
                    push_str(&mut v, "\",");
                },
                None => {},
            }
            push_str(&mut v, " \"spatial_transform\": { \"scale\": [");
            push_str(&mut v, t.scale.0.as_str());
            push_str(&mut v, ", ");
            push_str(&mut v, t.scale.1.as_str());
            push_str(&mut v, "], \"translation\": [");
            push_str(&mut v, t.translation.0.as_str());
            push_str(&mut v, ", ");
            push_str(&mut v, t.translation.1.as_str());
            push_str(&mut v, "] } }");
        },
        None => {
            push_str(&mut v, "{}");
        },
    }
    v
}

impl CogLayout {
    /// Synthesize the Zarr-V2 metadata of a COG. `fill` is the text of its
    /// NoData value and `transform` the text of its affine transform, where it
    /// has them. Fails when the band format has no Zarr dtype.
    pub fn new(meta: CogMetadata, fill: Option<String>, transform: Option<TransformText>) -> (r: Result<CogLayout, String>)
        ensures
            r is Err <==> band_dtype_of(meta@) is Err,
            r matches Err(e) ==> Err::<Seq<char>, Seq<char>>(e@) == band_dtype_of(meta@),
            r matches Ok(l) ==> {
                &&& l.meta@ == meta@
                &&& l.fill@ == fill_text(fill)
                &&& band_dtype_of(meta@) matches Ok(dtype)
                &&& l.zarray@ == zarray_text(meta@, dtype, fill_text(fill))
                &&& l.zattrs@ == zattrs_text(meta@, transform)
                &&& l.zmetadata@ == zmetadata_text(l.zarray@, l.zattrs@)
            },
    {
        let dtype = match meta.band_dtype() {
            Ok(d) => d,
            Err(e) => return Err(e),
        };
        let mut za: Vec<char> = Vec::new();
        push_str(&mut za, "{\"zarr_format\":2,\"shape\":");
        let shape = shape_json(&meta);
        push_all(&mut za, shape.as_slice());
        push_str(&mut za, ",\"chunks\":");
        let chunks = chunks_json(&meta);
        push_all(&mut za, chunks.as_slice());
        push_str(&mut za, ",\"dtype\":\"");
        push_str(&mut za, dtype.as_str());
        push_str(&mut za, "\",\"compressor\":null,\"fill_value\":");
        let fill_str: String = match fill {
            Some(f) => f,
            None => String::from_str("0"),
        };
        push_str(&mut za, fill_str.as_str());
        push_str(&mut za, ",\"filters\":null,\"order\":\"C\"}");
        let mut zt: Vec<char> = Vec::new();
        push_str(&mut zt, "{\"_ARRAY_DIMENSIONS\":");
        let dims = dims_json(&meta);
        push_all(&mut zt, dims.as_slice());
        push_str(&mut zt, ",\"geozarr\":");
        let geo = geozarr_json(&meta, &transform);
        push_all(&mut zt, geo.as_slice());
        push_str(&mut zt, "}");
        let mut zm: Vec<char> = Vec::new();
        push_str(&mut zm, "{\"metadata\":{\".zarray\":");
        push_all(&mut zm, za.as_slice());
        push_str(&mut zm, ",\".zattrs\":");
        push_all(&mut zm, zt.as_slice());
        push_str(&mut zm, "},\"zarr_consolidated_format\":1}");
        let zarray = string_of(za.as_slice());
        let zattrs = string_of(zt.as_slice());
        let zmetadata = string_of(zm.as_slice());
        Ok(CogLayout { meta, fill: fill_str, zarray, zattrs, zmetadata })
    }

    /// Resolve a store key to the read that serves it.
    pub fn locate(&self, key: &str) -> (r: CogRead)
        ensures
            r == cog_read_of(self.meta@, key@),
    {
        let k = chars_of(key);
        let ks = k.as_slice();
        if eq_str(ks, ".zmetadata") {
            return CogRead::ZMetadata;
        }
        if eq_str(ks, ".zarray") {
            return CogRead::ZArray;
        }
        if eq_str(ks, ".zattrs") {
            return CogRead::ZAttrs;
        }
        proof {
            reveal_strlit(".zmetadata");
            reveal_strlit(".zarray");
            reveal_strlit(".zattrs");
        }
        match parse_chunk_key(key) {
            Some((b, y, x)) => {
                let w = self.meta.image_width;
                let tw = self.meta.tile_width;
                let across: usize = if tw == 0 {
                    if w == 0 { 0 } else { usize::MAX }
                } else {
                    let num: u64 = w as u64 + tw as u64 - 1;
                    let den: u64 = tw as u64;
                    let q = num / den;
                    assert(q <= w) by (nonlinear_arith)
                        requires
                            den >= 1,
                            num == w + den - 1,
                            q == num / den,
                    ;
                    q as usize
                };
                assert(across == tiles_across(w, tw));
                let flat = match y.checked_mul(across) {
                    Some(p) => match p.checked_add(x) {
                        Some(f) => f,
                        None => return CogRead::Missing,
                    },
                    None => return CogRead::Missing,
                };
                if flat < self.meta.tile_offsets.len() && flat < self.meta.tile_byte_counts.len() {
                    let offset = self.meta.tile_offsets[flat];
                    let length = self.meta.tile_byte_counts[flat];
                    match offset.checked_add(length) {
                        Some(end) => CogRead::Tile { offset, end, band: b },
                        None => CogRead::Missing,
                    }
                } else {
                    CogRead::Missing
                }
            },
            None => CogRead::Missing,
        }
    }

    /// Decode the stored bytes `raw` of a tile and keep band `band`.
    pub fn tile_data(&self, raw: &[u8], band: usize) -> (r: Result<Vec<u8>, String>)
        ensures
            r matches Ok(v) ==> tile_data_of(self.meta@, raw@, band as int) == Ok::<Seq<u8>, Seq<char>>(v@),
            r matches Err(e) ==> match tile_data_of(self.meta@, raw@, band as int) {
                Err(m) => if m == "deflate decode failed: "@ {
                    has_prefix(e@, m)
                } else {
                    e@ == m
                },
                Ok(_) => false,
            },
    {
        let m = &self.meta;
        let comp = match m.compression_kind() {
            Ok(c) => c,
            Err(e) => {
                proof {
                    lemma_prefix_refl(e@);
                }
                return Err(e);
            },
        };
        let decoded: Vec<u8> = match comp {
            CogCompression::Uncompressed => vstd::slice::slice_to_vec(raw),
            CogCompression::Deflate => match zlib_decode(raw) {
                Ok(d) => d,
                Err(e) => {
                    let mut msg: Vec<char> = Vec::new();
                    push_str(&mut msg, "deflate decode failed: ");
                    push_str(&mut msg, e.as_str());
                    assert(msg@.subrange(0, "deflate decode failed: "@.len() as int) =~= "deflate decode failed: "@);
                    return Err(string_of(msg.as_slice()));
                },
            },
        };
        if m.samples_per_pixel <= 1 {
            return Ok(decoded);
        }
        let samples = m.samples_per_pixel as u128;
        let bps: u128 = (m.bits_per_sample as u128 + 7) / 8;
        assert(bps <= 8192);
        assert(bps * samples < 0x4000_0000) by (nonlinear_arith)
            requires
                bps <= 8192,
                samples <= 65535,
        ;
        let bpp: u128 = bps * samples;
        assert(m.tile_length as u128 * m.tile_width as u128 * bpp < 0x1_0000_0000_0000_0000_0000_0000) by (nonlinear_arith)
            requires
                m.tile_length <= u32::MAX,
                m.tile_width <= u32::MAX,
                bpp < 0x4000_0000,
        ;
        assert(m.tile_length as u128 * m.tile_width as u128 <= 0xffff_ffff_ffff_ffff) by (nonlinear_arith)
            requires
                m.tile_length <= u32::MAX,
                m.tile_width <= u32::MAX,
        ;
        let expected: u128 = m.tile_length as u128 * m.tile_width as u128 * bpp;
        assert(expected == tile_bytes(m@));
        let len = decoded.len();
        if len as u128 != expected {
            let mut msg: Vec<char> = Vec::new();
            push_str(&mut msg, "decoded tile length ");
            push_decimal(&mut msg, len as u64);
            push_str(&mut msg, " does not match expected interleaved size ");
            push_decimal_wide(&mut msg, expected);
            push_str(&mut msg, " (");
            push_decimal(&mut msg, m.tile_width as u64);
            push_str(&mut msg, "x");
            push_decimal(&mut msg, m.tile_length as u64);
            push_str(&mut msg, " pixels x ");
            push_decimal_wide(&mut msg, bpp);
            push_str(&mut msg, " bytes/pixel); tile may be truncated or corrupt");
            proof {
                lemma_prefix_refl(msg@);
            }
            return Err(string_of(msg.as_slice()));
        }
        if bps == 0 || band as u128 >= samples {
            let mut msg: Vec<char> = Vec::new();
            push_str(&mut msg, "band ");
            push_decimal(&mut msg, band as u64);
            push_str(&mut msg, " is not stored in this tile");
            proof {
                lemma_prefix_refl(msg@);
            }
            return Err(string_of(msg.as_slice()));
        }
        assert(bpp > 0) by (nonlinear_arith)
            requires
                bps > 0,
                samples > 1,
                bpp == bps * samples,
        ;
        let bps_u = bps as usize;
        let bpp_u = bpp as usize;
        assert(band * bps_u < 0x4000_0000) by (nonlinear_arith)
            requires
                band < samples,
                bpp == bps * samples,
                bpp < 0x4000_0000,
                bps_u == bps,
        ;
        let off = band * bps_u;
        let pixels = len / bpp_u;
        let mut out: Vec<u8> = Vec::new();
        let mut p: usize = 0;
        while p < pixels
            invariant
                len == decoded@.len(),
                bpp_u as int == bps_u * m.samples_per_pixel,
                band < m.samples_per_pixel,
                off == band * bps_u,
                bps_u > 0,
                pixels == len / bpp_u,
                p <= pixels,
                out@ == deinterleave(decoded@, bpp_u as int, off as int, bps_u as int, p as nat),
            decreases pixels - p,
        {
            proof {
                lemma_pixel_slot(len as int, bpp_u as int, p as int, band as int, bps_u as int, m.samples_per_pixel as int);
            }
            let base = p * bpp_u + off;
            let mut j: usize = 0;
            let ghost before = out@;
            while j < bps_u
                invariant
                    len == decoded@.len(),
                    base + bps_u <= len,
                    j <= bps_u,
                    out@ == before + decoded@.subrange(base as int, base + j),
                decreases bps_u - j,
            {
                out.push(decoded[base + j]);
                j = j + 1;
                assert(decoded@.subrange(base as int, base + j) =~= decoded@.subrange(base as int, base + j - 1).push(decoded@[base + j - 1]));
            }
            p = p + 1;
        }
        assert(len as int / bpp_u as int == pixels);
        Ok(out)
    }
}

} // verus!
