//! Where a dataset path leads: the kind of source it names, the S3 bucket and
//! root, the HTTP endpoint and key, STAC asset href resolution, the sandbox
//! rule for local paths and the pagination of STAC searches.

use vstd::prelude::*;
use crate::text::{
    chars_of, contains, ends_with, first_index, has_prefix, has_suffix, contains_seq, last_index,
    find_char, rfind_char, push_all, push_decimal, push_str, slice_to_vec_chars, starts_with,
    string_of, trim_start_char, trim_start_matches, split_seq, split_char, decimal, views,
    contains_name,
};
use crate::stac::{chars_lt, chars_le, names_sorted, sort_names, lemma_chars_lt_total, lemma_chars_lt_trans};

verus! {

/// The path names a GeoTIFF (`.tif` / `.tiff`).
pub open spec fn is_cog_name(p: Seq<char>) -> bool {
    has_suffix(p, ".tif"@) || has_suffix(p, ".tiff"@)
}

/// The path names a Zarr hierarchy (`.zarr` / `.zarr/`).
pub open spec fn is_zarr_name(p: Seq<char>) -> bool {
    has_suffix(p, ".zarr"@) || has_suffix(p, ".zarr/"@)
}

/// `.tif` / `.tiff` suffix test.
pub fn is_cog_path(path: &str) -> (r: bool)
    ensures
        r == is_cog_name(path@),
{
    let p = chars_of(path);
    ends_with(p.as_slice(), chars_of(".tif").as_slice()) || ends_with(p.as_slice(), chars_of(".tiff").as_slice())
}

/// `.zarr` / `.zarr/` suffix test.
pub fn is_zarr_path(path: &str) -> (r: bool)
    ensures
        r == is_zarr_name(path@),
{
    let p = chars_of(path);
    ends_with(p.as_slice(), chars_of(".zarr").as_slice()) || ends_with(p.as_slice(), chars_of(".zarr/").as_slice())
}

/// The storage a dataset path lives on.
#[derive(Clone, Copy, Debug, PartialEq, Eq, Structural)]
pub enum SourceKind {
    S3,
    Http,
    Local,
}

pub open spec fn source_kind_of(p: Seq<char>) -> SourceKind {
    if has_prefix(p, "s3://"@) {
        SourceKind::S3
    } else if has_prefix(p, "http://"@) || has_prefix(p, "https://"@) {
        SourceKind::Http
    } else {
        SourceKind::Local
    }
}

/// How a dataset path is opened: its storage, whether it is a single COG, and
/// whether it may be a STAC document (neither a COG nor a Zarr hierarchy, and
/// not on S3).
#[derive(Clone, Copy, Debug, PartialEq, Eq, Structural)]
pub struct SourcePlan {
    pub kind: SourceKind,
    pub cog: bool,
    pub probe_stac: bool,
}

/// The storage of a path, and whether it is opened as a COG or probed as STAC.
pub fn plan_source(path: &str) -> (r: SourcePlan)
    ensures
        r.kind == source_kind_of(path@),
        r.cog == is_cog_name(path@),
        r.probe_stac == (r.kind != SourceKind::S3 && !is_cog_name(path@) && !is_zarr_name(path@)),
{
    let p = chars_of(path);
    let ps = p.as_slice();
    let kind = if starts_with(ps, chars_of("s3://").as_slice()) {
        SourceKind::S3
    } else if starts_with(ps, chars_of("http://").as_slice()) || starts_with(ps, chars_of("https://").as_slice()) {
        SourceKind::Http
    } else {
        SourceKind::Local
    };
    let cog = is_cog_path(path);
    let zarr = is_zarr_path(path);
    SourcePlan { kind, cog, probe_stac: kind != SourceKind::S3 && !cog && !zarr }
}

/// Bucket part of `bucket/root`: everything before the first `/`.
pub open spec fn s3_bucket(rest: Seq<char>) -> Seq<char> {
    match first_index(rest, '/') {
        Some(i) => rest.take(i),
        None => rest,
    }
}

/// Bucket and root of an `s3://bucket/root` URL: the root keeps its leading `/`
/// and is empty when the URL names only a bucket. `None` without the scheme.
pub fn s3_location(path: &str) -> (r: Option<(String, String)>)
    ensures
        r is Some <==> has_prefix(path@, "s3://"@),
        r matches Some((b, root)) ==> {
            let rest = path@.skip(5);
            &&& b@ == s3_bucket(rest)
            &&& root@ == rest.skip(b@.len() as int)
            &&& b@ + root@ == rest
            &&& !b@.contains('/')
        },
{
    let p = chars_of(path);
    let ps = p.as_slice();
    if !starts_with(ps, chars_of("s3://").as_slice()) {
        proof {
            reveal_strlit("s3://");
        }
        return None;
    }
    proof {
        reveal_strlit("s3://");
    }
    let n = ps.len();
    let rest = slice_to_vec_chars(ps, 5, n);
    assert(rest@ =~= path@.skip(5));
    let rs = rest.as_slice();
    let m = rs.len();
    let cut: usize = match find_char(rs, '/') {
        Some(i) => i,
        None => m,
    };
    let bucket = slice_to_vec_chars(rs, 0, cut);
    let root = slice_to_vec_chars(rs, cut, m);
    assert(bucket@ =~= s3_bucket(rest@)) by {
        if first_index(rest@, '/') is None {
            assert(rest@.take(m as int) =~= rest@);
        }
    }
    assert(bucket@ + root@ =~= rest@);
    assert(!bucket@.contains('/')) by {
        if bucket@.contains('/') {
            let k = choose|k: int| 0 <= k < bucket@.len() && bucket@[k] == '/';
            assert(rs@[k] == '/');
        }
    }
    Some((string_of(bucket.as_slice()), string_of(root.as_slice())))
}

/// A STAC asset is read as a COG when its media type mentions `tiff` or `cog`,
/// or its href ends in `.tif` / `.tiff`.
pub open spec fn cog_asset(media_type: Seq<char>, href: Seq<char>) -> bool {
    contains_seq(media_type, "tiff"@) || contains_seq(media_type, "cog"@) || is_cog_name(href)
}

/// Whether a STAC asset of this media type and href is read as a COG.
pub fn is_cog_asset(media_type: &str, href: &str) -> (r: bool)
    ensures
        r == cog_asset(media_type@, href@),
{
    let t = chars_of(media_type);
    contains(t.as_slice(), chars_of("tiff").as_slice()) || contains(t.as_slice(), chars_of("cog").as_slice())
        || is_cog_path(href)
}

/// An href that is used as it stands: it starts with `http` or `s3://`.
pub open spec fn absolute_href(h: Seq<char>) -> bool {
    has_prefix(h, "http"@) || has_prefix(h, "s3://"@)
}

/// `p` up to and including its last `/` (all of `p` when it has none).
pub open spec fn dir_prefix(p: Seq<char>) -> Seq<char> {
    match last_index(p, '/') {
        Some(i) => p.take(i + 1),
        None => p,
    }
}

fn href_is_absolute(href: &[char]) -> (r: bool)
    ensures
        r == absolute_href(href@),
{
    starts_with(href, chars_of("http").as_slice()) || starts_with(href, chars_of("s3://").as_slice())
}

/// An asset href of a STAC document at `path`: absolute hrefs stand, others are
/// taken relative to the document's directory.
pub fn resolve_asset_href(path: &str, href: &str) -> (r: String)
    ensures
        absolute_href(href@) ==> r@ == href@,
        !absolute_href(href@) ==> r@ == dir_prefix(path@) + href@,
{
    let h = chars_of(href);
    if href_is_absolute(h.as_slice()) {
        return string_of(h.as_slice());
    }
    let p = chars_of(path);
    let ps = p.as_slice();
    let n = ps.len();
    let cut: usize = match rfind_char(ps, '/') {
        Some(i) => {
            assert(i < n);
            i + 1
        },
        None => n,
    };
    let mut out = slice_to_vec_chars(ps, 0, cut);
    assert(out@ =~= dir_prefix(path@)) by {
        if last_index(path@, '/') is None {
            assert(path@.take(n as int) =~= path@);
        }
    }
    push_all(&mut out, h.as_slice());
    string_of(out.as_slice())
}

/// An asset href of the STAC item at `parent`: absolute hrefs stand, others are
/// appended to the item's URL after a `/`.
pub fn parent_asset_href(parent: &str, href: &str) -> (r: String)
    ensures
        absolute_href(href@) ==> r@ == href@,
        !absolute_href(href@) ==> r@ == parent@ + "/"@ + href@,
{
    let h = chars_of(href);
    if href_is_absolute(h.as_slice()) {
        return string_of(h.as_slice());
    }
    let mut out = chars_of(parent);
    push_str(&mut out, "/");
    push_all(&mut out, h.as_slice());
    string_of(out.as_slice())
}

proof fn lemma_split_single(s: Seq<char>, sep: char)
    requires
        !s.contains(sep),
    ensures
        split_seq(s, sep).len() == 1,
    decreases s.len(),
{
    if s.len() > 0 {
        assert(!s.drop_last().contains(sep)) by {
            if s.drop_last().contains(sep) {
                let k = choose|k: int| 0 <= k < s.drop_last().len() && s.drop_last()[k] == sep;
                assert(s[k] == sep);
            }
        }
        lemma_split_single(s.drop_last(), sep);
        assert(s.last() != sep) by {
            if s.last() == sep {
                assert(s[s.len() - 1] == sep);
            }
        }
    }
}

/// A path of more than three `/`-separated parts may name an asset of the STAC
/// item at its parent: the parent URL (before the last `/`) and the asset name
/// (after it).
pub fn parent_stac_candidate(path: &str) -> (r: Option<(String, String)>)
    ensures
        r is Some <==> split_seq(path@, '/').len() > 3,
        r matches Some((parent, asset)) ==> {
            &&& last_index(path@, '/') matches Some(i)
            &&& parent@ == path@.take(i)
            &&& asset@ == path@.skip(i + 1)
        },
{
    let p = chars_of(path);
    let ps = p.as_slice();
    let parts = split_char(ps, '/');
    if parts.len() <= 3 {
        return None;
    }
    let pn = ps.len();
    match rfind_char(ps, '/') {
        Some(i) => {
            assert(i < pn);
            let parent = slice_to_vec_chars(ps, 0, i);
            let asset = slice_to_vec_chars(ps, i + 1, pn);
            assert(asset@ =~= path@.skip(i + 1));
            Some((string_of(parent.as_slice()), string_of(asset.as_slice())))
        },
        None => {
            proof {
                if !path@.contains('/') {
                    lemma_split_single(path@, '/');
                }
            }
            None
        },
    }
}

/// Parts of a URL as `url::Url` parses it: scheme, host, explicit port and
/// path, or the parser's error message.
pub uninterp spec fn url_components(s: Seq<char>) -> Result<(Seq<char>, Option<Seq<char>>, Option<u16>, Seq<char>), Seq<char>>;

pub open spec fn opt_string_view(o: Option<String>) -> Option<Seq<char>> {
    match o {
        Some(s) => Some(s@),
        None => None,
    }
}

pub open spec fn url_parts_view(r: Result<(String, Option<String>, Option<u16>, String), String>) -> Result<(Seq<char>, Option<Seq<char>>, Option<u16>, Seq<char>), Seq<char>> {
    match r {
        Ok((s, h, p, path)) => Ok((s@, opt_string_view(h), p, path@)),
        Err(e) => Err(e@),
    }
}

/// `reqwest::Url::parse` (the `url` crate's parser), read back as scheme,
/// `host_str`, `port` and `path`; its error as the error's display text. The
/// WHATWG parsing rules it follows are not stated: the result is named.
#[verifier::external_body]
fn parse_url(s: &str) -> (r: Result<(String, Option<String>, Option<u16>, String), String>)
    ensures
        url_parts_view(r) == url_components(s@),
{
    match reqwest::Url::parse(s) {
        Ok(u) => {
            let host = match u.host_str() {
                Some(h) => Some(h.to_string()),
                None => None,
            };
            Ok((u.scheme().to_string(), host, u.port(), u.path().to_string()))
        },
        Err(e) => Err(e.to_string()),
    }
}

/// `scheme://host[:port]` of parsed URL parts.
pub open spec fn endpoint_of(scheme: Seq<char>, host: Option<Seq<char>>, port: Option<u16>) -> Seq<char> {
    scheme + "://"@ + (match host {
        Some(h) => h,
        None => Seq::empty(),
    }) + (match port {
        Some(p) => ":"@ + decimal(p as nat),
        None => Seq::empty(),
    })
}

/// Split a full HTTP URL into an endpoint (`scheme://host[:port]`) and the key
/// of the object under it (the path without its leading slashes), so that the
/// object is read as a file rather than listed as a directory.
pub fn split_http_endpoint_key(url: &str) -> (r: Result<(String, String), String>)
    ensures
        match url_components(url@) {
            Ok((scheme, host, port, path)) => r matches Ok((endpoint, key)) && endpoint@ == endpoint_of(
                scheme,
                host,
                port,
            ) && key@ == trim_start_char(path, '/'),
            Err(e) => r matches Err(m) && m@ == e,
        },
{
    match parse_url(url) {
        Ok((scheme, host, port, path)) => {
            let mut ep = chars_of(scheme.as_str());
            push_str(&mut ep, "://");
            match &host {
                Some(h) => push_str(&mut ep, h.as_str()),
                None => {},
            }
            match port {
                Some(p) => {
                    push_str(&mut ep, ":");
                    push_decimal(&mut ep, p as u64);
                },
                None => {},
            }
            let pc = chars_of(path.as_str());
            let key = trim_start_matches(pc.as_slice(), '/');
            assert(ep@ =~= endpoint_of(scheme@, opt_string_view(host), port));
            Ok((string_of(ep.as_slice()), string_of(key.as_slice())))
        },
        Err(e) => Err(e),
    }
}

/// The URL `href` names relative to `base`, as `url::Url` resolves it; `None`
/// when `base` does not parse or the join fails.
pub uninterp spec fn url_joined(base: Seq<char>, href: Seq<char>) -> Option<Seq<char>>;

/// `reqwest::Url::parse(base)` followed by `Url::join(href)`, serialized. The
/// resolution rules (RFC 3986 / WHATWG) are not stated: the result is named.
#[verifier::external_body]
fn join_url(base: &str, href: &str) -> (r: Option<String>)
    ensures
        opt_string_view(r) == url_joined(base@, href@),
{
    match reqwest::Url::parse(base) {
        Ok(b) => match b.join(href) {
            Ok(u) => Some(u.to_string()),
            Err(_) => None,
        },
        Err(_) => None,
    }
}

/// Largest number of pages of one STAC search that are fetched.
pub const MAX_STAC_PAGES: u32 = 1000;

/// No element occurs twice.
pub open spec fn distinct(s: Seq<Seq<char>>) -> bool {
    forall|i: int, j: int| 0 <= i < j < s.len() ==> s[i] != s[j]
}

/// What fetching and reading one page of a STAC search gave.
#[derive(Debug)]
pub enum PageOutcome {
    /// The request failed.
    FetchFailed,
    /// The response body is not JSON.
    ParseFailed,
    /// A STAC FeatureCollection, with the href of its `next` link if it has one.
    Collection(Option<String>),
    /// JSON that is not a STAC FeatureCollection.
    NotCollection,
}

/// What to do after a page.
#[derive(Debug)]
pub enum PagerStep {
    /// Fetch the next page.
    Continue,
    /// Stop paging and use what was gathered.
    Stop,
    /// Give up with this error.
    Fail(String),
}

/// Follows the `next` links of a STAC search: at most `MAX_STAC_PAGES` pages,
/// never the same URL twice, relative links resolved against the page URL.
pub struct StacPager {
    url: String,
    visited: Vec<String>,
}

impl StacPager {
    /// The URL of the page to fetch next.
    pub closed spec fn current(&self) -> Seq<char> {
        self.url@
    }

    /// The URLs fetched so far, in order.
    pub closed spec fn fetched(&self) -> Seq<Seq<char>> {
        views(self.visited@)
    }

    /// Pages are bounded in number and pairwise distinct.
    pub closed spec fn wf(&self) -> bool {
        &&& self.visited@.len() <= MAX_STAC_PAGES
        &&& distinct(self.fetched())
    }

    /// Start a search at `url`.
    pub fn new(url: String) -> (p: StacPager)
        ensures
            p.wf(),
            p.current() == url@,
            p.fetched() == Seq::<Seq<char>>::empty(),
    {
        let p = StacPager { url, visited: Vec::new() };
        assert(p.fetched() =~= Seq::<Seq<char>>::empty());
        p
    }

    /// The URL of the next page to fetch, which counts as fetched from now on;
    /// `None` once `MAX_STAC_PAGES` pages were fetched or the next URL was
    /// fetched before (a cycle).
    pub fn next_fetch(&mut self) -> (r: Option<String>)
        requires
            old(self).wf(),
        ensures
            final(self).wf(),
            final(self).current() == old(self).current(),
            (old(self).fetched().len() >= MAX_STAC_PAGES || old(self).fetched().contains(old(self).current()))
                ==> r is None && final(self).fetched() == old(self).fetched(),
            !(old(self).fetched().len() >= MAX_STAC_PAGES || old(self).fetched().contains(old(self).current()))
                ==> (r matches Some(u) && u@ == old(self).current() && final(self).fetched() == old(
                self,
            ).fetched().push(old(self).current())),
    {
        if self.visited.len() >= 1000 {
            return None;
        }
        if contains_name(self.visited.as_slice(), self.url.as_str()) {
            return None;
        }
        let ghost before = self.fetched();
        let u = self.url.clone();
        self.visited.push(u);
        proof {
            assert(self.fetched() =~= before.push(self.url@));
            assert forall|i: int, j: int| 0 <= i < j < self.fetched().len() implies self.fetched()[i] != self.fetched()[j] by {
                if j == before.len() {
                    assert(before[i] != self.url@) by {
                        if before[i] == self.url@ {
                            assert(before.contains(self.url@));
                        }
                    }
                }
            }
        }
        Some(self.url.clone())
    }

    /// Take in what the page just fetched gave. A failed fetch or unreadable
    /// body ends the search, and is an error after the first page. A
    /// FeatureCollection with a `next` link continues at the link (resolved
    /// against the page URL where that resolves); anything else ends it.
    pub fn on_page(&mut self, outcome: PageOutcome) -> (r: PagerStep)
        requires
            old(self).wf(),
        ensures
            final(self).wf(),
            final(self).fetched() == old(self).fetched(),
            match outcome {
                PageOutcome::FetchFailed => if old(self).fetched().len() > 1 {
                    r matches PagerStep::Fail(m) && m@ == "Failed to fetch STAC pagination page from "@ + old(self).current()
                } else {
                    r is Stop
                },
                PageOutcome::ParseFailed => if old(self).fetched().len() > 1 {
                    r matches PagerStep::Fail(m) && m@ == "Failed to parse STAC pagination response from "@ + old(self).current()
                } else {
                    r is Stop
                },
                PageOutcome::Collection(Some(h)) => r is Continue && final(self).current() == (match url_joined(old(self).current(), h@) {
                    Some(u) => u,
                    None => h@,
                }),
                PageOutcome::Collection(None) => r is Stop,
                PageOutcome::NotCollection => r is Stop,
            },
    {
        match outcome {
            PageOutcome::FetchFailed => {
                if self.visited.len() > 1 {
                    let mut m: Vec<char> = Vec::new();
                    push_str(&mut m, "Failed to fetch STAC pagination page from ");
                    push_str(&mut m, self.url.as_str());
                    PagerStep::Fail(string_of(m.as_slice()))
                } else {
                    PagerStep::Stop
                }
            },
            PageOutcome::ParseFailed => {
                if self.visited.len() > 1 {
                    let mut m: Vec<char> = Vec::new();
                    push_str(&mut m, "Failed to parse STAC pagination response from ");
                    push_str(&mut m, self.url.as_str());
                    PagerStep::Fail(string_of(m.as_slice()))
                } else {
                    PagerStep::Stop
                }
            },
            PageOutcome::Collection(Some(h)) => {
                let next = match join_url(self.url.as_str(), h.as_str()) {
                    Some(u) => u,
                    None => h,
                };
                self.url = next;
                PagerStep::Continue
            },
            PageOutcome::Collection(None) => PagerStep::Stop,
            PageOutcome::NotCollection => PagerStep::Stop,
        }
    }
}

/// However a search goes, it fetches at most `MAX_STAC_PAGES` pages and never
/// the same URL twice.
pub proof fn lemma_pager_bounded(p: StacPager)
    requires
        p.wf(),
    ensures
        p.fetched().len() <= MAX_STAC_PAGES,
        forall|i: int, j: int| 0 <= i < j < p.fetched().len() ==> p.fetched()[i] != p.fetched()[j],
{
}

/// Bytes of a COG read to parse its header: the file size when known and
/// smaller, at most `COG_HEADER_WINDOW`.
pub const COG_HEADER_WINDOW: u64 = 16384;

/// How many leading bytes of a COG are fetched to parse its header.
pub fn header_len(file_size: Option<u64>) -> (r: u64)
    ensures
        r == match file_size {
            Some(s) => if s < COG_HEADER_WINDOW { s } else { COG_HEADER_WINDOW },
            None => COG_HEADER_WINDOW,
        },
{
    match file_size {
        Some(s) => if s < COG_HEADER_WINDOW { s } else { COG_HEADER_WINDOW },
        None => COG_HEADER_WINDOW,
    }
}

/// `list_arrays` asks an HTTP(S) URL that names neither a Zarr hierarchy nor a
/// COG whether it is a STAC item.
pub fn lists_stac_assets(uri: &str) -> (r: bool)
    ensures
        r == ((has_prefix(uri@, "http://"@) || has_prefix(uri@, "https://"@)) && !is_zarr_name(uri@) && !is_cog_name(uri@)),
{
    let u = chars_of(uri);
    let us = u.as_slice();
    (starts_with(us, chars_of("http://").as_slice()) || starts_with(us, chars_of("https://").as_slice()))
        && !is_zarr_path(uri) && !is_cog_path(uri)
}

/// The array a consolidated-metadata key ending in `.zarray` belongs to: the
/// key without `/.zarray`, or the root (empty) for a bare `.zarray`.
pub open spec fn array_of_key(k: Seq<char>) -> Seq<char> {
    if has_suffix(k, "/.zarray"@) {
        k.take(k.len() - 8)
    } else {
        Seq::empty()
    }
}

/// Arrays named by the keys of consolidated metadata.
pub open spec fn array_candidates(keys: Seq<Seq<char>>) -> Seq<Seq<char>>
    decreases keys.len(),
{
    if keys.len() == 0 {
        Seq::empty()
    } else {
        let rest = array_candidates(keys.drop_last());
        if has_suffix(keys.last(), ".zarray"@) {
            rest.push(array_of_key(keys.last()))
        } else {
            rest
        }
    }
}

/// The arrays of a group, from the keys of its consolidated metadata: each
/// once, in ascending order.
pub fn arrays_from_consolidated(keys: &Vec<String>) -> (r: Vec<String>)
    ensures
        forall|i: int, j: int| 0 <= i < j < r@.len() ==> chars_lt((#[trigger] r@[i])@, (#[trigger] r@[j])@),
        forall|x: Seq<char>| views(r@).contains(x) <==> array_candidates(views(keys@)).contains(x),
{
    let n = keys.len();
    let mut cand: Vec<String> = Vec::new();
    let mut i: usize = 0;
    assert(views(keys@).take(0) =~= Seq::<Seq<char>>::empty());
    while i < n
        invariant
            n == keys@.len(),
            i <= n,
            views(cand@) == array_candidates(views(keys@).take(i as int)),
        decreases n - i,
    {
        assert(views(keys@).take(i + 1).drop_last() =~= views(keys@).take(i as int));
        assert(views(keys@).take(i + 1).last() == keys@[i as int]@);
        let k = chars_of(keys[i].as_str());
        let ks = k.as_slice();
        if ends_with(ks, chars_of(".zarray").as_slice()) {
            let a: Vec<char> = if ends_with(ks, chars_of("/.zarray").as_slice()) {
                proof {
                    reveal_strlit("/.zarray");
                }
                slice_to_vec_chars(ks, 0, ks.len() - 8)
            } else {
                Vec::new()
            };
            assert(a@ =~= array_of_key(keys@[i as int]@));
            cand.push(string_of(a.as_slice()));
            assert(views(cand@) =~= array_candidates(views(keys@).take(i as int)).push(array_of_key(keys@[i as int]@)));
        }
        i = i + 1;
    }
    assert(views(keys@).take(n as int) =~= views(keys@));
    let sorted = sort_names(cand);
    proof {
        assert forall|x: Seq<char>| views(sorted@).contains(x) <==> views(cand@).contains(x) by {
            vstd::seq_lib::to_multiset_contains(views(sorted@), x);
            vstd::seq_lib::to_multiset_contains(views(cand@), x);
        }
    }
    let m = sorted.len();
    let mut out: Vec<String> = Vec::new();
    let mut j: usize = 0;
    while j < m
        invariant
            m == sorted@.len(),
            j <= m,
            names_sorted(views(sorted@)),
            forall|a: int, b: int| 0 <= a < b < out@.len() ==> chars_lt((#[trigger] out@[a])@, (#[trigger] out@[b])@),
            forall|x: Seq<char>| views(out@).contains(x) <==> views(sorted@).take(j as int).contains(x),
            j > 0 ==> out@.len() > 0 && out@.last()@ == sorted@[j - 1]@,
            j == 0 ==> out@.len() == 0,
        decreases m - j,
    {
        let ghost prefix = views(sorted@).take(j as int);
        let ghost next = views(sorted@).take(j + 1);
        assert(next =~= prefix.push(sorted@[j as int]@));
        let keep = if j == 0 {
            true
        } else {
            !crate::text::eq_str(chars_of(sorted[j].as_str()).as_slice(), sorted[j - 1].as_str())
        };
        if keep {
            let ghost before = views(out@);
            out.push(sorted[j].clone());
            proof {
                assert(views(out@) =~= before.push(sorted@[j as int]@));
                if j > 0 {
                    assert(chars_le(sorted@[j - 1]@, sorted@[j as int]@)) by {
                        assert(views(sorted@)[j - 1] == sorted@[j - 1]@);
                        assert(views(sorted@)[j as int] == sorted@[j as int]@);
                    }
                    lemma_chars_lt_total(sorted@[j as int]@, sorted@[j - 1]@);
                    assert(chars_lt(sorted@[j - 1]@, sorted@[j as int]@));
                    assert forall|a: int| 0 <= a < before.len() implies chars_lt(before[a], sorted@[j as int]@) by {
                        assert(before[before.len() - 1] == sorted@[j - 1]@);
                        if a < before.len() - 1 {
                            assert(chars_lt(out@[a]@, out@[before.len() - 1]@));
                            lemma_chars_lt_trans(before[a], sorted@[j - 1]@, sorted@[j as int]@);
                        }
                    }
                }
                assert forall|a: int, b: int| 0 <= a < b < out@.len() implies chars_lt((#[trigger] out@[a])@, (#[trigger] out@[b])@) by {
                    if b < before.len() {
                        assert(out@[a]@ == before[a] && out@[b]@ == before[b]);
                    } else {
                        assert(out@[a]@ == before[a] && out@[b]@ == sorted@[j as int]@);
                    }
                }
                assert forall|x: Seq<char>| views(out@).contains(x) <==> next.contains(x) by {
                    if views(out@).contains(x) {
                        let k = choose|k: int| 0 <= k < views(out@).len() && views(out@)[k] == x;
                        if k < before.len() {
                            assert(before.contains(x));
                            assert(prefix.contains(x));
                            let q = choose|q: int| 0 <= q < prefix.len() && prefix[q] == x;
                            assert(next[q] == x);
                        } else {
                            assert(next[j as int] == x);
                        }
                    }
                    if next.contains(x) {
                        let q = choose|q: int| 0 <= q < next.len() && next[q] == x;
                        if q < j {
                            assert(prefix[q] == x);
                            assert(before.contains(x));
                            let k = choose|k: int| 0 <= k < before.len() && before[k] == x;
                            assert(views(out@)[k] == x);
                        } else {
                            assert(views(out@)[before.len() as int] == x);
                        }
                    }
                }
            }
        } else {
            proof {
                assert forall|x: Seq<char>| views(out@).contains(x) <==> next.contains(x) by {
                    if next.contains(x) {
                        let q = choose|q: int| 0 <= q < next.len() && next[q] == x;
                        if q < j {
                            assert(prefix[q] == x);
                        } else {
                            assert(x == sorted@[j - 1]@);
                            assert(views(out@)[out@.len() - 1] == x);
                        }
                    }
                    if views(out@).contains(x) {
                        assert(prefix.contains(x));
                        let q = choose|q: int| 0 <= q < prefix.len() && prefix[q] == x;
                        assert(next[q] == x);
                    }
                }
            }
        }
        j = j + 1;
    }
    assert(views(sorted@).take(m as int) =~= views(sorted@));
    out
}

/// The keys that tell whether `uri` holds a group, and where its consolidated
/// metadata is: relative to the HTTP endpoint's key for URLs, else to the root.
pub fn group_probe_keys(uri: &str) -> (r: Result<(String, String), String>)
    ensures
        !has_prefix(uri@, "http"@) ==> (r matches Ok((g, m)) && g@ == ".zgroup"@ && m@ == ".zmetadata"@),
        has_prefix(uri@, "http"@) ==> match url_components(uri@) {
            Ok((scheme, host, port, path)) => r matches Ok((g, m)) && g@ == trim_start_char(path, '/') + "/.zgroup"@
                && m@ == trim_start_char(path, '/') + "/.zmetadata"@,
            Err(e) => r matches Err(x) && x@ == e,
        },
{
    let u = chars_of(uri);
    if !starts_with(u.as_slice(), chars_of("http").as_slice()) {
        return Ok((String::from_str(".zgroup"), String::from_str(".zmetadata")));
    }
    match split_http_endpoint_key(uri) {
        Ok((_, key)) => {
            let mut g = chars_of(key.as_str());
            push_str(&mut g, "/.zgroup");
            let mut m = chars_of(key.as_str());
            push_str(&mut m, "/.zmetadata");
            Ok((string_of(g.as_slice()), string_of(m.as_slice())))
        },
        Err(e) => Err(e),
    }
}

/// The message of a local path outside the allowed directory.
pub open spec fn sandbox_denied() -> Seq<char> {
    "Access denied. Path is not within the allowed sandbox directory (GEOZARR_ALLOW_PATH or CWD)."@
}

/// `path` lies under `base`, comparing whole path components, as
/// `std::path::Path::starts_with` decides.
pub uninterp spec fn path_within(path: Seq<char>, base: Seq<char>) -> bool;

/// `std::path::Path::new(path).starts_with(base)`. Its component rules are
/// not stated: the result is named.
#[verifier::external_body]
fn path_starts_with(path: &str, base: &str) -> (r: bool)
    ensures
        r == path_within(path@, base@),
{
    std::path::Path::new(path).starts_with(base)
}

/// Local paths are served only from under the allowed directory: `Ok` when
/// the canonical `path` lies under the canonical `allowed` directory, else
/// the access-denied message.
pub fn check_sandbox(path: &str, allowed: &str) -> (r: Result<(), String>)
    ensures
        r is Ok <==> path_within(path@, allowed@),
        r matches Err(e) ==> e@ == sandbox_denied(),
{
    if path_starts_with(path, allowed) {
        Ok(())
    } else {
        Err(String::from_str("Access denied. Path is not within the allowed sandbox directory (GEOZARR_ALLOW_PATH or CWD)."))
    }
}

} // verus!
