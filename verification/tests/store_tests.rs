use geozarr_core::store::{
    arrays_from_consolidated, check_sandbox, group_probe_keys, header_len, is_cog_asset, is_cog_path,
    lists_stac_assets, parent_asset_href, parent_stac_candidate, plan_source, resolve_asset_href, s3_location,
    split_http_endpoint_key, PageOutcome, PagerStep, SourceKind, StacPager, MAX_STAC_PAGES,
};

fn s(x: &str) -> String {
    x.to_string()
}

#[test]
fn test_split_http_endpoint_key() {
    let (ep, path) = split_http_endpoint_key("https://example.com/path/to/data.zarr").unwrap();
    assert_eq!(ep, "https://example.com");
    assert_eq!(path, "path/to/data.zarr");
    let (ep2, path2) = split_http_endpoint_key("http://localhost:8080/test.cog").unwrap();
    assert_eq!(ep2, "http://localhost:8080");
    assert_eq!(path2, "test.cog");
    let (ep3, path3) = split_http_endpoint_key("https://bucket.s3.amazonaws.com/").unwrap();
    assert_eq!(ep3, "https://bucket.s3.amazonaws.com");
    assert_eq!(path3, "");
}

#[test]
fn split_http_rejects_non_urls() {
    assert!(split_http_endpoint_key("not a url").is_err());
    // The default port of the scheme is not written out.
    let (ep, _) = split_http_endpoint_key("https://example.com:443/a").unwrap();
    assert_eq!(ep, "https://example.com");
}

#[test]
fn source_plans() {
    let p = plan_source("s3://bucket/data.zarr");
    assert_eq!(p.kind, SourceKind::S3);
    assert!(!p.cog && !p.probe_stac);
    let p = plan_source("https://host/item.json");
    assert_eq!(p.kind, SourceKind::Http);
    assert!(!p.cog && p.probe_stac);
    let p = plan_source("https://host/a.tif");
    assert!(p.cog && !p.probe_stac);
    let p = plan_source("/data/climate.zarr/");
    assert_eq!(p.kind, SourceKind::Local);
    assert!(!p.cog && !p.probe_stac);
    assert!(is_cog_path("x.tiff") && !is_cog_path("x.tif.json"));
}

#[test]
fn s3_bucket_and_root() {
    assert_eq!(s3_location("s3://bucket/a/b.tif"), Some((s("bucket"), s("/a/b.tif"))));
    assert_eq!(s3_location("s3://bucket"), Some((s("bucket"), s(""))));
    assert_eq!(s3_location("https://bucket/a"), None);
}

#[test]
fn cog_asset_detection() {
    assert!(is_cog_asset("image/tiff; application=geotiff; profile=cloud-optimized", ""));
    assert!(is_cog_asset("", "https://x/B04.tif"));
    assert!(is_cog_asset("application/cog", "x"));
    assert!(!is_cog_asset("application/json", "https://x/meta.json"));
}

#[test]
fn asset_href_resolution() {
    assert_eq!(resolve_asset_href("https://h/items/item.json", "B04.tif"), "https://h/items/B04.tif");
    assert_eq!(resolve_asset_href("item.json", "B04.tif"), "item.jsonB04.tif");
    assert_eq!(resolve_asset_href("https://h/items/item.json", "s3://b/k.tif"), "s3://b/k.tif");
    assert_eq!(parent_asset_href("https://h/items/S2B", "B04.tif"), "https://h/items/S2B/B04.tif");
    assert_eq!(parent_asset_href("https://h/items/S2B", "https://o/B04.tif"), "https://o/B04.tif");
}

#[test]
fn parent_item_of_asset_path() {
    assert_eq!(
        parent_stac_candidate("https://h/items/S2B_T21NYC/swir22"),
        Some((s("https://h/items/S2B_T21NYC"), s("swir22")))
    );
    assert_eq!(parent_stac_candidate("https://h/x"), Some((s("https://h"), s("x"))));
    assert_eq!(parent_stac_candidate("https://h"), None);
}

#[test]
fn pager_follows_next_links() {
    let mut p = StacPager::new(s("https://h/search?page=1"));
    assert_eq!(p.next_fetch(), Some(s("https://h/search?page=1")));
    assert!(matches!(p.on_page(PageOutcome::Collection(Some(s("/search?page=2")))), PagerStep::Continue));
    assert_eq!(p.next_fetch(), Some(s("https://h/search?page=2")));
    // A failure after the first page is an error naming the page.
    match p.on_page(PageOutcome::FetchFailed) {
        PagerStep::Fail(e) => assert_eq!(e, "Failed to fetch STAC pagination page from https://h/search?page=2"),
        _ => panic!("expected failure"),
    }
}

#[test]
fn pager_first_page_failure_stops_quietly() {
    let mut p = StacPager::new(s("https://h/search"));
    assert!(p.next_fetch().is_some());
    assert!(matches!(p.on_page(PageOutcome::ParseFailed), PagerStep::Stop));
}

#[test]
fn pager_stops_on_cycle() {
    let mut p = StacPager::new(s("https://h/a"));
    assert!(p.next_fetch().is_some());
    assert!(matches!(p.on_page(PageOutcome::Collection(Some(s("https://h/b")))), PagerStep::Continue));
    assert!(p.next_fetch().is_some());
    assert!(matches!(p.on_page(PageOutcome::Collection(Some(s("https://h/a")))), PagerStep::Continue));
    assert_eq!(p.next_fetch(), None);
    match p.on_page(PageOutcome::ParseFailed) {
        PagerStep::Fail(e) => assert_eq!(e, "Failed to parse STAC pagination response from https://h/a"),
        _ => panic!("expected failure"),
    }
}

#[test]
fn pager_page_limit() {
    let mut p = StacPager::new(s("https://h/p0"));
    let mut pages = 0u32;
    while p.next_fetch().is_some() {
        pages += 1;
        let next = format!("https://h/p{}", pages);
        assert!(matches!(p.on_page(PageOutcome::Collection(Some(next))), PagerStep::Continue));
    }
    assert_eq!(pages, MAX_STAC_PAGES);
}

#[test]
fn header_window() {
    assert_eq!(header_len(Some(100)), 100);
    assert_eq!(header_len(Some(1 << 20)), 16384);
    assert_eq!(header_len(None), 16384);
}

#[test]
fn consolidated_arrays() {
    let keys = vec![s(".zgroup"), s("b/.zarray"), s("a/.zattrs"), s("a/.zarray"), s("b/.zarray"), s(".zarray")];
    assert_eq!(arrays_from_consolidated(&keys), vec![s(""), s("a"), s("b")]);
    assert!(arrays_from_consolidated(&vec![s(".zgroup")]).is_empty());
}

#[test]
fn list_probe_rules() {
    assert!(lists_stac_assets("https://h/item"));
    assert!(!lists_stac_assets("https://h/x.zarr"));
    assert!(!lists_stac_assets("https://h/x.tif"));
    assert!(!lists_stac_assets("/local/item"));
    assert_eq!(group_probe_keys("/data/x.zarr").unwrap(), (s(".zgroup"), s(".zmetadata")));
    assert_eq!(
        group_probe_keys("https://h/data/x.zarr").unwrap(),
        (s("data/x.zarr/.zgroup"), s("data/x.zarr/.zmetadata"))
    );
}

#[test]
fn sandbox_rule() {
    assert!(check_sandbox("/data/sub/x.zarr", "/data").is_ok());
    assert_eq!(
        check_sandbox("/database/x.zarr", "/data").unwrap_err(),
        "Access denied. Path is not within the allowed sandbox directory (GEOZARR_ALLOW_PATH or CWD)."
    );
}
