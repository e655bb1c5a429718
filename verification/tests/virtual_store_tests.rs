use std::io::Write;
use geozarr_core::cog::CogMetadata;
use geozarr_core::virtual_store::{parse_chunk_key, CogLayout, CogRead, TransformText};

fn s(x: &str) -> String {
    x.to_string()
}

fn i16_meta(samples: u16, offsets: Vec<u64>, counts: Vec<u64>) -> CogMetadata {
    CogMetadata {
        image_width: 4,
        image_length: 2,
        tile_width: 4,
        tile_length: 2,
        tile_offsets: offsets,
        tile_byte_counts: counts,
        is_little_endian: true,
        bits_per_sample: 16,
        sample_format: 2,
        samples_per_pixel: samples,
        compression: 1,
        predictor: 1,
        ..Default::default()
    }
}

/// Decimal text of a float as the store writes it.
fn num(x: f64) -> String {
    format!("{x}")
}

#[test]
fn test_virtual_store_synthesizes_geozarr_attrs() {
    let mut meta = i16_meta(1, vec![0], vec![16]);
    meta.pixel_scale = [2.0f64, 2.0, 0.0].iter().map(|v| v.to_bits()).collect();
    meta.tiepoint = [0.0f64, 0.0, 0.0, -180.0, 90.0, 0.0].iter().map(|v| v.to_bits()).collect();
    meta.epsg = Some(4326);
    // Cell-centre transform: scale [-sy, sx], translation [ty - sy/2, tx + sx/2].
    let t = TransformText { scale: (num(-2.0), num(2.0)), translation: (num(89.0), num(-179.0)) };
    let layout = CogLayout::new(meta, None, Some(t)).unwrap();
    assert!(layout.zarray.contains("\"<i2\""), "dtype should be <i2: {}", layout.zarray);
    assert!(layout.zattrs.contains("_ARRAY_DIMENSIONS"));
    assert!(layout.zattrs.contains("\"lat\"") && layout.zattrs.contains("\"lon\""));
    assert!(layout.zattrs.contains("EPSG:4326"));
    assert!(layout.zattrs.contains("spatial_transform"));
}

#[test]
fn synthesized_documents_exactly() {
    let mut meta = i16_meta(1, vec![0], vec![16]);
    meta.epsg = Some(4326);
    let t = TransformText { scale: (num(-2.0), num(2.0)), translation: (num(89.0), num(-179.0)) };
    let layout = CogLayout::new(meta, Some(s("-9999")), Some(t)).unwrap();
    assert_eq!(
        layout.zarray,
        r#"{"zarr_format":2,"shape":[2,4],"chunks":[2,4],"dtype":"<i2","compressor":null,"fill_value":-9999,"filters":null,"order":"C"}"#
    );
    assert_eq!(
        layout.zattrs,
        r#"{"_ARRAY_DIMENSIONS":["lat", "lon"],"geozarr":{ "crs": "EPSG:4326", "spatial_transform": { "scale": [-2, 2], "translation": [89, -179] } }}"#
    );
    assert_eq!(
        layout.zmetadata,
        format!(
            r#"{{"metadata":{{".zarray":{},".zattrs":{}}},"zarr_consolidated_format":1}}"#,
            layout.zarray, layout.zattrs
        )
    );
    // The synthesized documents are JSON.
    let z: serde_json::Value = serde_json::from_str(&layout.zmetadata).unwrap();
    assert_eq!(z["metadata"][".zarray"]["fill_value"], serde_json::Value::from(-9999));
    // Without NoData the fill value is 0, without transform the attrs are empty.
    let plain = CogLayout::new(i16_meta(1, vec![0], vec![16]), None, None).unwrap();
    assert!(plain.zarray.contains("\"fill_value\":0,"));
    assert!(plain.zattrs.ends_with("\"geozarr\":{}}"));
    assert!(plain.zattrs.contains("[\"y\", \"x\"]"));
}

#[test]
fn test_multiband_cog_accepted_at_open() {
    let layout = CogLayout::new(i16_meta(3, vec![0], vec![16]), None, None);
    assert!(layout.is_ok());
    let layout = layout.unwrap();
    assert!(layout.zarray.contains("\"shape\":[3,2,4]"));
    assert!(layout.zarray.contains("\"chunks\":[1,2,4]"));
    assert!(layout.zattrs.contains("[\"band\", \"y\", \"x\"]"));
}

#[test]
fn unsupported_band_format_rejected() {
    let mut meta = i16_meta(1, vec![0], vec![16]);
    meta.bits_per_sample = 12;
    assert_eq!(CogLayout::new(meta, None, None).err().unwrap(), "unsupported BitsPerSample 12");
}

#[test]
fn test_multiband_chunk_read_deinterleaves_band() {
    let samples = 3usize;
    let mut raw: Vec<u8> = Vec::new();
    for p in 0..8i16 {
        for b in 0..samples as i16 {
            raw.extend_from_slice(&(p * 10 + b).to_le_bytes());
        }
    }
    assert_eq!(raw.len(), 8 * samples * 2);
    let layout = CogLayout::new(i16_meta(samples as u16, vec![0], vec![raw.len() as u64]), None, None).unwrap();
    for band in 0..samples {
        let key = format!("{band}.0.0");
        let read = layout.locate(&key);
        assert_eq!(read, CogRead::Tile { offset: 0, end: raw.len() as u64, band });
        let out = layout.tile_data(&raw, band).unwrap();
        assert_eq!(out.len(), 8 * 2, "band {band} chunk must be one band's worth");
        let expected: Vec<u8> = (0..8i16).flat_map(|p| (p * 10 + band as i16).to_le_bytes()).collect();
        assert_eq!(out, expected, "band {band} de-interleaved bytes");
    }
}

#[test]
fn test_multiband_multitile_chunk_read_selects_tile_and_band() {
    let samples = 2usize;
    let pixels_per_tile = 4usize;
    let num_tiles = 4usize;
    let tile_bytes = pixels_per_tile * samples * 2;
    let mut raw: Vec<u8> = Vec::new();
    for t in 0..num_tiles as i16 {
        for p in 0..pixels_per_tile as i16 {
            for b in 0..samples as i16 {
                raw.extend_from_slice(&(t * 100 + p * 10 + b).to_le_bytes());
            }
        }
    }
    let offsets: Vec<u64> = (0..num_tiles).map(|t| (t * tile_bytes) as u64).collect();
    let counts: Vec<u64> = vec![tile_bytes as u64; num_tiles];
    let meta = CogMetadata {
        image_width: 4,
        image_length: 4,
        tile_width: 2,
        tile_length: 2,
        tile_offsets: offsets,
        tile_byte_counts: counts,
        is_little_endian: true,
        bits_per_sample: 16,
        sample_format: 2,
        samples_per_pixel: samples as u16,
        compression: 1,
        predictor: 1,
        ..Default::default()
    };
    let layout = CogLayout::new(meta, None, None).unwrap();
    let cases = [(0usize, 0usize, 1usize, 1usize), (1, 1, 0, 2), (1, 1, 1, 3)];
    for (band, y, x, expected_tile) in cases {
        let key = format!("{band}.{y}.{x}");
        let (offset, end) = match layout.locate(&key) {
            CogRead::Tile { offset, end, band: b } => {
                assert_eq!(b, band);
                (offset as usize, end as usize)
            },
            other => panic!("key {key} read {other:?}"),
        };
        let out = layout.tile_data(&raw[offset..end], band).unwrap();
        assert_eq!(out.len(), pixels_per_tile * 2, "key {key} one band's worth");
        let expected: Vec<u8> = (0..pixels_per_tile as i16)
            .flat_map(|p| (expected_tile as i16 * 100 + p * 10 + band as i16).to_le_bytes())
            .collect();
        assert_eq!(out, expected, "key {key} tile+band de-interleaved");
    }
}

#[test]
fn test_deflate_tile_is_inflated() {
    let raw: Vec<u8> = (0..16u8).collect();
    let mut enc = flate2::write::ZlibEncoder::new(Vec::new(), flate2::Compression::default());
    enc.write_all(&raw).unwrap();
    let compressed = enc.finish().unwrap();
    let mut meta = i16_meta(1, vec![0], vec![compressed.len() as u64]);
    meta.compression = 8;
    let layout = CogLayout::new(meta, None, None).unwrap();
    assert_eq!(layout.locate("0.0"), CogRead::Tile { offset: 0, end: compressed.len() as u64, band: 0 });
    let out = layout.tile_data(&compressed, 0).unwrap();
    assert_eq!(out, raw, "deflate tile must be inflated to raw bytes");
}

#[test]
fn corrupt_deflate_and_short_tiles_error() {
    let mut meta = i16_meta(1, vec![0], vec![4]);
    meta.compression = 8;
    let layout = CogLayout::new(meta, None, None).unwrap();
    let e = layout.tile_data(&[1, 2, 3, 4], 0).unwrap_err();
    assert!(e.starts_with("deflate decode failed: "), "{e}");
    let layout = CogLayout::new(i16_meta(2, vec![0], vec![4]), None, None).unwrap();
    let e = layout.tile_data(&[0u8; 10], 0).unwrap_err();
    assert_eq!(
        e,
        "decoded tile length 10 does not match expected interleaved size 32 (4x2 pixels x 4 bytes/pixel); tile may be truncated or corrupt"
    );
    let mut meta = i16_meta(1, vec![0], vec![4]);
    meta.predictor = 2;
    let layout = CogLayout::new(meta, None, None).unwrap();
    assert_eq!(
        layout.tile_data(&[0u8; 16], 0).unwrap_err(),
        "unsupported COG predictor 2 (only predictor=1/none is supported)"
    );
}

#[test]
fn metadata_keys_and_missing_tiles() {
    let layout = CogLayout::new(i16_meta(1, vec![0], vec![16]), None, None).unwrap();
    assert_eq!(layout.locate(".zarray"), CogRead::ZArray);
    assert_eq!(layout.locate(".zattrs"), CogRead::ZAttrs);
    assert_eq!(layout.locate(".zmetadata"), CogRead::ZMetadata);
    assert_eq!(layout.locate("0.1"), CogRead::Missing);
    assert_eq!(layout.locate("a.b"), CogRead::Missing);
    assert_eq!(layout.locate("0.0.0.0"), CogRead::Missing);
    assert_eq!(parse_chunk_key("3.4"), Some((0, 3, 4)));
    assert_eq!(parse_chunk_key("2.3.4"), Some((2, 3, 4)));
    assert_eq!(parse_chunk_key("+1.0"), Some((0, 1, 0)));
    assert_eq!(parse_chunk_key("-1.0"), None);
}
