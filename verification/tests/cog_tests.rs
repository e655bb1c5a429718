use geozarr_core::cog::{parse_cog_metadata, parse_tiff_header, CogCompression, CogMetadata};

fn put(b: &mut [u8], o: usize, tag: u16, typ: u16, count: u32, val: u32) {
    b[o..o + 2].copy_from_slice(&tag.to_le_bytes());
    b[o + 2..o + 4].copy_from_slice(&typ.to_le_bytes());
    b[o + 4..o + 8].copy_from_slice(&count.to_le_bytes());
    b[o + 8..o + 12].copy_from_slice(&val.to_le_bytes());
}

fn header(n_entries: u16, len: usize) -> Vec<u8> {
    let mut b = vec![0u8; len];
    b[0..2].copy_from_slice(b"II");
    b[2..4].copy_from_slice(&42u16.to_le_bytes());
    b[4..8].copy_from_slice(&8u32.to_le_bytes());
    b[8..10].copy_from_slice(&n_entries.to_le_bytes());
    b
}

#[test]
fn test_parse_tiff_header() {
    let buffer: &[u8] = &[0x49, 0x49, 0x2A, 0x00, 0x08, 0x00, 0x00, 0x00];
    let header = parse_tiff_header(buffer).unwrap();
    assert!(header.is_little_endian);
    assert_eq!(header.first_ifd_offset, 8);
}

#[test]
fn tiff_header_errors() {
    assert_eq!(parse_tiff_header(&[0x49, 0x49, 0x2A]).unwrap_err(), "Buffer too small for TIFF header");
    assert_eq!(
        parse_tiff_header(&[0x41, 0x42, 0x2A, 0, 8, 0, 0, 0]).unwrap_err(),
        "Invalid TIFF byte order"
    );
    assert_eq!(
        parse_tiff_header(&[0x49, 0x49, 0x2B, 0, 8, 0, 0, 0]).unwrap().first_ifd_offset,
        8
    );
    assert_eq!(
        parse_tiff_header(&[0x49, 0x49, 0x2C, 0, 8, 0, 0, 0]).unwrap_err(),
        "Invalid TIFF magic number"
    );
    // Big-endian header: MM, 42, offset 16.
    let h = parse_tiff_header(&[0x4d, 0x4d, 0, 0x2A, 0, 0, 0, 16]).unwrap();
    assert!(!h.is_little_endian);
    assert_eq!(h.first_ifd_offset, 16);
}

#[test]
fn test_parse_ifd() {
    let mut buffer = header(1, 32);
    put(&mut buffer, 10, 256, 4, 1, 1024);
    let info = parse_cog_metadata(&buffer).unwrap();
    assert_eq!(info.image_width, 1024);
}

#[test]
fn test_parse_scalar_tags() {
    let mut b = header(6, 100);
    let mut o = 10;
    put(&mut b, o, 256, 4, 1, 4);
    o += 12;
    put(&mut b, o, 257, 4, 1, 2);
    o += 12;
    put(&mut b, o, 322, 3, 1, 4);
    o += 12;
    put(&mut b, o, 323, 3, 1, 2);
    o += 12;
    put(&mut b, o, 258, 3, 1, 16);
    o += 12;
    put(&mut b, o, 339, 3, 1, 2);
    let m = parse_cog_metadata(&b).unwrap();
    assert!(m.is_little_endian);
    assert_eq!(m.bits_per_sample, 16);
    assert_eq!(m.sample_format, 2);
    assert_eq!(m.samples_per_pixel, 1);
    assert_eq!(m.compression, 1);
    assert_eq!((m.image_width, m.image_length, m.tile_width, m.tile_length), (4, 2, 4, 2));
    assert_eq!(m.predictor, 1);
}

#[test]
fn ifd_offset_out_of_bounds_errors() {
    let mut b = vec![0u8; 16];
    b[0..2].copy_from_slice(b"II");
    b[2..4].copy_from_slice(&42u16.to_le_bytes());
    b[4..8].copy_from_slice(&15u32.to_le_bytes());
    assert_eq!(parse_cog_metadata(&b).unwrap_err(), "IFD offset out of bounds");
}

#[test]
fn tile_offsets_and_counts_arrays() {
    // Two LONG tile offsets and two SHORT byte counts stored after the IFD.
    let mut b = header(2, 80);
    put(&mut b, 10, 324, 4, 2, 40);
    put(&mut b, 22, 325, 3, 2, 48);
    b[40..44].copy_from_slice(&100u32.to_le_bytes());
    b[44..48].copy_from_slice(&200u32.to_le_bytes());
    b[48..50].copy_from_slice(&16u16.to_le_bytes());
    b[50..52].copy_from_slice(&32u16.to_le_bytes());
    let m = parse_cog_metadata(&b).unwrap();
    assert_eq!(m.tile_offsets, vec![100, 200]);
    assert_eq!(m.tile_byte_counts, vec![16, 32]);
}

#[test]
fn test_zarr_dtype_and_band_guard() {
    let mut m = CogMetadata { is_little_endian: true, samples_per_pixel: 1, ..Default::default() };
    m.bits_per_sample = 16;
    m.sample_format = 2;
    assert_eq!(m.zarr_dtype().unwrap(), "<i2");
    m.bits_per_sample = 32;
    m.sample_format = 3;
    assert_eq!(m.zarr_dtype().unwrap(), "<f4");
    m.bits_per_sample = 8;
    m.sample_format = 1;
    assert_eq!(m.zarr_dtype().unwrap(), "|u1");
    m.is_little_endian = false;
    m.bits_per_sample = 16;
    m.sample_format = 1;
    assert_eq!(m.zarr_dtype().unwrap(), ">u2");
    m.samples_per_pixel = 3;
    assert!(m.zarr_dtype().is_err());
    let bad = CogMetadata { samples_per_pixel: 1, bits_per_sample: 12, sample_format: 1, ..Default::default() };
    assert!(bad.zarr_dtype().is_err());
}

#[test]
fn dtype_error_messages() {
    let mut m = CogMetadata { samples_per_pixel: 3, bits_per_sample: 16, sample_format: 2, ..Default::default() };
    assert_eq!(m.zarr_dtype().unwrap_err(), "multi-band COGs not yet supported (SamplesPerPixel=3)");
    // One band of a multi-band COG still has a dtype.
    assert_eq!(m.band_dtype().unwrap(), ">i2");
    m.samples_per_pixel = 1;
    m.sample_format = 7;
    assert_eq!(m.zarr_dtype().unwrap_err(), "unsupported TIFF SampleFormat 7");
    m.sample_format = 1;
    m.bits_per_sample = 12;
    assert_eq!(m.zarr_dtype().unwrap_err(), "unsupported BitsPerSample 12");
    m.sample_format = 3;
    m.bits_per_sample = 16;
    assert_eq!(m.zarr_dtype().unwrap_err(), "unsupported float width 16 bits");
    m.bits_per_sample = 64;
    assert_eq!(m.zarr_dtype().unwrap(), ">f8");
}

#[test]
fn test_compression_and_predictor_and_nodata() {
    let mut m = CogMetadata { compression: 1, predictor: 1, ..Default::default() };
    assert!(matches!(m.compression_kind(), Ok(CogCompression::Uncompressed)));
    m.compression = 8;
    assert!(matches!(m.compression_kind(), Ok(CogCompression::Deflate)));
    m.compression = 32946;
    assert!(matches!(m.compression_kind(), Ok(CogCompression::Deflate)));
    m.compression = 5;
    assert!(m.compression_kind().is_err());
    m.compression = 8;
    m.predictor = 2;
    assert!(m.compression_kind().is_err());
}

#[test]
fn compression_error_messages() {
    let mut m = CogMetadata { compression: 5, predictor: 1, ..Default::default() };
    assert_eq!(
        m.compression_kind().unwrap_err(),
        "unsupported COG compression 5 (only uncompressed and Deflate are supported)"
    );
    m.compression = 1;
    m.predictor = 2;
    assert_eq!(
        m.compression_kind().unwrap_err(),
        "unsupported COG predictor 2 (only predictor=1/none is supported)"
    );
}

fn georeferenced() -> Vec<u8> {
    let mut b = header(3, 300);
    let scale_off = 48usize;
    for (i, v) in [2.0f64, 2.0, 0.0].iter().enumerate() {
        b[scale_off + i * 8..scale_off + i * 8 + 8].copy_from_slice(&v.to_le_bytes());
    }
    let tp_off = 72usize;
    for (i, v) in [0.0f64, 0.0, 0.0, -180.0, 90.0, 0.0].iter().enumerate() {
        b[tp_off + i * 8..tp_off + i * 8 + 8].copy_from_slice(&v.to_le_bytes());
    }
    let gk_off = 120usize;
    let gk: [u16; 8] = [1, 1, 0, 1, 2048, 0, 1, 4326];
    for (i, v) in gk.iter().enumerate() {
        b[gk_off + i * 2..gk_off + i * 2 + 2].copy_from_slice(&v.to_le_bytes());
    }
    put(&mut b, 10, 33550, 12, 3, scale_off as u32);
    put(&mut b, 22, 33922, 12, 6, tp_off as u32);
    put(&mut b, 34, 34735, 3, 8, gk_off as u32);
    b
}

#[test]
fn test_georeferencing() {
    let m = parse_cog_metadata(&georeferenced()).unwrap();
    let scale: Vec<f64> = m.pixel_scale.iter().map(|b| f64::from_bits(*b)).collect();
    let tie: Vec<f64> = m.tiepoint.iter().map(|b| f64::from_bits(*b)).collect();
    assert_eq!(scale, vec![2.0, 2.0, 0.0]);
    assert_eq!(tie, vec![0.0, 0.0, 0.0, -180.0, 90.0, 0.0]);
    assert_eq!(m.crs(), Some("EPSG:4326".to_string()));
    assert_eq!(m.dim_names(), vec!["lat".to_string(), "lon".to_string()]);
}

#[test]
fn other_crs_dims_are_y_x() {
    let m = CogMetadata { epsg: Some(32633), ..Default::default() };
    assert_eq!(m.crs(), Some("EPSG:32633".to_string()));
    assert_eq!(m.dim_names(), vec!["y".to_string(), "x".to_string()]);
    let none = CogMetadata::default();
    assert_eq!(none.crs(), None);
    assert_eq!(none.dim_names(), vec!["y".to_string(), "x".to_string()]);
}

fn nodata_value(m: &CogMetadata) -> Option<f64> {
    let raw = m.nodata_text.as_ref()?;
    let s = std::str::from_utf8(raw).ok()?;
    let t = s.trim().trim_end_matches('\0').trim();
    t.parse::<f64>().ok().filter(|v| v.is_finite())
}

#[test]
fn test_nodata_inline() {
    let mut b = header(1, 32);
    b[10..12].copy_from_slice(&42113u16.to_le_bytes());
    b[12..14].copy_from_slice(&2u16.to_le_bytes());
    b[14..18].copy_from_slice(&2u32.to_le_bytes());
    b[18] = 0x30;
    b[19] = 0x00;
    let m = parse_cog_metadata(&b).unwrap();
    assert_eq!(m.nodata_text, Some(b"0\0".to_vec()));
    assert_eq!(nodata_value(&m), Some(0.0));
}

#[test]
fn test_nodata_offset() {
    let mut b = header(1, 64);
    let data_off = 32usize;
    b[10..12].copy_from_slice(&42113u16.to_le_bytes());
    b[12..14].copy_from_slice(&2u16.to_le_bytes());
    b[14..18].copy_from_slice(&6u32.to_le_bytes());
    b[18..22].copy_from_slice(&(data_off as u32).to_le_bytes());
    b[data_off..data_off + 6].copy_from_slice(b"-9999\0");
    let m = parse_cog_metadata(&b).unwrap();
    assert_eq!(m.nodata_text, Some(b"-9999\0".to_vec()));
    assert_eq!(nodata_value(&m), Some(-9999.0));
}

#[test]
fn metadata_byte_order_matches_header() {
    let b = georeferenced();
    let h = parse_tiff_header(&b).unwrap();
    let m = parse_cog_metadata(&b).unwrap();
    assert_eq!(h.is_little_endian, m.is_little_endian);
}
