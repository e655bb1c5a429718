//! STAC items as the stores are built from them: the acquisition time of each
//! feature, the time order of a collection, its COG assets, the hrefs of the
//! per-item tiles and the reassembly of fetched children in time order.

use vstd::prelude::*;
use crate::store::{cog_asset, resolve_asset_href, absolute_href, dir_prefix};
use crate::text::{
    chars_of, trim, trim_seq, push_str, push_all, push_decimal, string_of, views, eq_str,
    decimal,
};

verus! {

broadcast use {vstd::seq_lib::to_multiset_insert, vstd::seq_lib::to_multiset_build};

/// Seconds since the Unix epoch of an RFC 3339 timestamp as `chrono` reads it,
/// or `chrono`'s message for why it is not one.
pub uninterp spec fn rfc3339_seconds(s: Seq<char>) -> Result<i64, Seq<char>>;

/// `chrono::DateTime::parse_from_rfc3339` and `DateTime::timestamp`; on failure
/// the display text of the `ParseError`. The RFC 3339 grammar is not stated:
/// the result is named.
#[verifier::external_body]
fn parse_rfc3339(s: &str) -> (r: Result<i64, String>)
    ensures
        match r {
            Ok(v) => rfc3339_seconds(s@) == Ok::<i64, Seq<char>>(v),
            Err(e) => rfc3339_seconds(s@) == Err::<i64, Seq<char>>(e@),
        },
{
    match chrono::DateTime::parse_from_rfc3339(s) {
        Ok(dt) => Ok(dt.timestamp()),
        Err(e) => Err(e.to_string()),
    }
}

/// The text `{:?}` gives for a string: quoted, with `str::escape_debug` applied.
pub uninterp spec fn debug_quoted(s: Seq<char>) -> Seq<char>;

/// `<str as Debug>::fmt`, through `format!("{:?}", s)`. Its escaping rules are
/// not stated: the result is named.
#[verifier::external_body]
fn debug_text(s: &str) -> (r: String)
    ensures
        r@ == debug_quoted(s@),
{
    format!("{:?}", s)
}

/// Epoch seconds of a STAC `datetime`, surrounding white space ignored.
pub open spec fn epoch_of(s: Seq<char>) -> Result<i64, Seq<char>> {
    match rfc3339_seconds(trim_seq(s)) {
        Ok(v) => Ok(v),
        Err(e) => Err("invalid RFC3339 datetime "@ + debug_quoted(s) + ": "@ + e),
    }
}

/// Parse an RFC 3339 timestamp into whole seconds since the Unix epoch.
pub fn rfc3339_to_epoch_seconds(s: &str) -> (r: Result<i64, String>)
    ensures
        match r {
            Ok(v) => epoch_of(s@) == Ok::<i64, Seq<char>>(v),
            Err(e) => epoch_of(s@) == Err::<i64, Seq<char>>(e@),
        },
{
    let t = trim(chars_of(s).as_slice());
    let ts = string_of(t.as_slice());
    match parse_rfc3339(ts.as_str()) {
        Ok(v) => Ok(v),
        Err(e) => {
            let mut m: Vec<char> = Vec::new();
            push_str(&mut m, "invalid RFC3339 datetime ");
            let d = debug_text(s);
            push_str(&mut m, d.as_str());
            push_str(&mut m, ": ");
            push_str(&mut m, e.as_str());
            Err(string_of(m.as_slice()))
        },
    }
}

/// One asset of a STAC item: its key, and its `type` and `href` where they are strings.
#[derive(Debug)]
pub struct StacAsset {
    pub name: String,
    pub media_type: Option<String>,
    pub href: Option<String>,
}

/// The parts of a STAC feature the stores read: `id` and
/// `properties.datetime` where they are strings, and the `assets` object
/// where there is one.
#[derive(Debug)]
pub struct StacFeature {
    pub id: Option<String>,
    pub datetime: Option<String>,
    pub assets: Option<Vec<StacAsset>>,
}

pub open spec fn text_or(o: Option<String>, d: Seq<char>) -> Seq<char> {
    match o {
        Some(s) => s@,
        None => d,
    }
}

/// `r` is an error with message `m`.
pub open spec fn fails_with<T>(r: Result<T, String>, m: Seq<char>) -> bool {
    match r {
        Ok(_) => false,
        Err(e) => e@ == m,
    }
}

/// `(epoch, feature index)` pairs ordered by time, ties by position.
pub open spec fn pair_lt(a: (i64, usize), b: (i64, usize)) -> bool {
    a.0 < b.0 || (a.0 == b.0 && a.1 < b.1)
}

/// `r` lists every index of `keys` once, with its key, in (key, index) order:
/// the order a stable sort by key gives.
pub open spec fn time_order(r: Seq<(i64, usize)>, keys: Seq<i64>) -> bool {
    &&& r.len() == keys.len()
    &&& forall|k: int| 0 <= k < r.len() ==> (#[trigger] r[k]).1 < keys.len() && r[k].0 == keys[r[k].1 as int]
    &&& forall|k: int, l: int| 0 <= k < l < r.len() ==> pair_lt(#[trigger] r[k], #[trigger] r[l])
}

/// Why the features of a collection have no time order: the first feature
/// (in document order) without a readable datetime.
pub open spec fn datetime_error(f: StacFeature) -> Option<Seq<char>> {
    let id = text_or(f.id, "<no id>"@);
    match f.datetime {
        None => Some("STAC item "@ + id + ": missing properties.datetime"@),
        Some(d) => match epoch_of(d@) {
            Ok(_) => None,
            Err(e) => Some("STAC item "@ + id + ": "@ + e),
        },
    }
}

/// Epoch of a feature whose datetime reads.
pub open spec fn feature_epoch(f: StacFeature) -> i64 {
    match f.datetime {
        Some(d) => match epoch_of(d@) {
            Ok(v) => v,
            Err(_) => 0,
        },
        None => 0,
    }
}

fn feature_time(f: &StacFeature) -> (r: Result<i64, String>)
    ensures
        datetime_error(*f) is None <==> r is Ok,
        r matches Ok(v) ==> v == feature_epoch(*f),
        r matches Err(e) ==> datetime_error(*f) == Some(e@),
{
    let id: String = match &f.id {
        Some(s) => s.clone(),
        None => String::from_str("<no id>"),
    };
    proof {
        reveal_strlit("<no id>");
    }
    match &f.datetime {
        None => {
            let mut m: Vec<char> = Vec::new();
            push_str(&mut m, "STAC item ");
            push_str(&mut m, id.as_str());
            push_str(&mut m, ": missing properties.datetime");
            Err(string_of(m.as_slice()))
        },
        Some(d) => match rfc3339_to_epoch_seconds(d.as_str()) {
            Ok(v) => Ok(v),
            Err(e) => {
                let mut m: Vec<char> = Vec::new();
                push_str(&mut m, "STAC item ");
                push_str(&mut m, id.as_str());
                push_str(&mut m, ": ");
                push_str(&mut m, e.as_str());
                Err(string_of(m.as_slice()))
            },
        },
    }
}

/// Epochs of features `0..n`, each of which reads.
pub open spec fn epochs(fs: Seq<StacFeature>) -> Seq<i64> {
    fs.map_values(|f: StacFeature| feature_epoch(f))
}

/// Order the features of a collection by acquisition time (stable for equal
/// times), as `(epoch seconds, feature index)`. Fails when there is no
/// `features` array, when it is empty, or at the first feature whose
/// `properties.datetime` is missing or not RFC 3339.
pub fn sorted_features_by_datetime(features: Option<&Vec<StacFeature>>) -> (r: Result<Vec<(i64, usize)>, String>)
    ensures
        match features {
            None => fails_with(r, "STAC FeatureCollection has no features array"@),
            Some(fs) => if fs@.len() == 0 {
                fails_with(r, "STAC FeatureCollection has no features (empty)"@)
            } else if exists|i: int| 0 <= i < fs@.len() && datetime_error(#[trigger] fs@[i]) is Some {
                r matches Err(e) && exists|i: int|
                    0 <= i < fs@.len() && datetime_error(#[trigger] fs@[i]) == Some(e@) && forall|j: int|
                        0 <= j < i ==> datetime_error(#[trigger] fs@[j]) is None
            } else {
                r matches Ok(v) && time_order(v@, epochs(fs@))
            },
        },
{
    proof {
        reveal_strlit("STAC FeatureCollection has no features array");
        reveal_strlit("STAC FeatureCollection has no features (empty)");
    }
    let fs = match features {
        None => {
            return Err(String::from_str("STAC FeatureCollection has no features array"));
        },
        Some(fs) => fs,
    };
    let n = fs.len();
    if n == 0 {
        return Err(String::from_str("STAC FeatureCollection has no features (empty)"));
    }
    let mut out: Vec<(i64, usize)> = Vec::new();
    let mut i: usize = 0;
    while i < n
        invariant
            features == Some(fs),
            n == fs@.len(),
            n > 0,
            i <= n,
            forall|j: int| 0 <= j < i ==> datetime_error(#[trigger] fs@[j]) is None,
            out@.len() == i,
            forall|k: int| 0 <= k < out@.len() ==> (#[trigger] out@[k]).1 < i && out@[k].0 == feature_epoch(fs@[out@[k].1 as int]),
            forall|k: int, l: int| 0 <= k < l < out@.len() ==> pair_lt(#[trigger] out@[k], #[trigger] out@[l]),
        decreases n - i,
    {
        let key = match feature_time(&fs[i]) {
            Ok(v) => v,
            Err(e) => {
                assert(datetime_error(fs@[i as int]) == Some(e@));
                return Err(e);
            },
        };
        let m = out.len();
        let mut p: usize = 0;
        while p < m && out[p].0 <= key
            invariant
                m == out@.len(),
                p <= m,
                forall|q: int| 0 <= q < p ==> (#[trigger] out@[q]).0 <= key,
            decreases m - p,
        {
            p = p + 1;
        }
        let ghost old_out = out@;
        out.insert(p, (key, i));
        proof {
            assert forall|k: int, l: int| 0 <= k < l < out@.len() implies pair_lt(#[trigger] out@[k], #[trigger] out@[l]) by {
                if l < p {
                    assert(out@[k] == old_out[k] && out@[l] == old_out[l]);
                } else if l == p {
                    assert(out@[k] == old_out[k]);
                } else if k > p {
                    assert(out@[k] == old_out[k - 1] && out@[l] == old_out[l - 1]);
                } else if k == p {
                    assert(out@[l] == old_out[l - 1]);
                    assert(old_out[p as int].0 > key) by {
                        assert(p < m);
                    }
                    if l - 1 > p {
                        assert(pair_lt(old_out[p as int], old_out[l - 1]));
                    }
                } else {
                    assert(out@[k] == old_out[k] && out@[l] == old_out[l - 1]);
                }
            }
            assert forall|k: int| 0 <= k < out@.len() implies (#[trigger] out@[k]).1 < i + 1 && out@[k].0 == feature_epoch(fs@[out@[k].1 as int]) by {
                if k < p {
                    assert(out@[k] == old_out[k]);
                } else if k > p {
                    assert(out@[k] == old_out[k - 1]);
                }
            }
        }
        i = i + 1;
    }
    proof {
        assert forall|k: int| 0 <= k < out@.len() implies (#[trigger] out@[k]).1 < epochs(fs@).len() && out@[k].0 == epochs(fs@)[out@[k].1 as int] by {
        }
    }
    Ok(out)
}

/// `a` comes before `b` in the byte order of their UTF-8 encodings, which is
/// the order of their code points.
pub open spec fn chars_lt(a: Seq<char>, b: Seq<char>) -> bool
    decreases a.len(),
{
    if a.len() == 0 {
        b.len() > 0
    } else if b.len() == 0 {
        false
    } else if a[0] != b[0] {
        a[0] < b[0]
    } else {
        chars_lt(a.drop_first(), b.drop_first())
    }
}

/// The code-point order of strings is transitive.
pub proof fn lemma_chars_lt_trans(a: Seq<char>, b: Seq<char>, c: Seq<char>)
    requires
        chars_lt(a, b),
        chars_lt(b, c),
    ensures
        chars_lt(a, c),
    decreases a.len(),
{
    if a.len() > 0 && b.len() > 0 && c.len() > 0 && a[0] == b[0] && b[0] == c[0] {
        lemma_chars_lt_trans(a.drop_first(), b.drop_first(), c.drop_first());
    }
}

/// Of two different strings, one comes before the other.
pub proof fn lemma_chars_lt_total(a: Seq<char>, b: Seq<char>)
    requires
        !chars_lt(a, b),
    ensures
        a == b || chars_lt(b, a),
    decreases a.len(),
{
    if a.len() > 0 && b.len() > 0 && a[0] == b[0] {
        lemma_chars_lt_total(a.drop_first(), b.drop_first());
        if a.drop_first() == b.drop_first() {
            assert(a =~= b) by {
                assert forall|i: int| 0 <= i < a.len() implies a[i] == b[i] by {
                    if i > 0 {
                        assert(a[i] == a.drop_first()[i - 1]);
                        assert(b[i] == b.drop_first()[i - 1]);
                    }
                }
            }
        }
    } else if a.len() == 0 && b.len() == 0 {
        assert(a =~= b);
    }
}

/// `a` is not after `b`.
pub open spec fn chars_le(a: Seq<char>, b: Seq<char>) -> bool {
    !chars_lt(b, a)
}

/// Ascending in string order.
pub open spec fn names_sorted(s: Seq<Seq<char>>) -> bool {
    forall|k: int, l: int| 0 <= k < l < s.len() ==> chars_le(#[trigger] s[k], #[trigger] s[l])
}

/// Whether `a` comes before `b` in code-point order.
pub fn lt_chars(a: &[char], b: &[char]) -> (r: bool)
    ensures
        r == chars_lt(a@, b@),
{
    let n = a.len();
    let m = b.len();
    let mut i: usize = 0;
    assert(a@.skip(0) =~= a@);
    assert(b@.skip(0) =~= b@);
    while i < n && i < m && a[i] == b[i]
        invariant
            n == a@.len(),
            m == b@.len(),
            i <= n,
            i <= m,
            chars_lt(a@, b@) == chars_lt(a@.skip(i as int), b@.skip(i as int)),
        decreases n - i,
    {
        proof {
            let sa = a@.skip(i as int);
            let sb = b@.skip(i as int);
            assert(sa.drop_first() =~= a@.skip(i + 1));
            assert(sb.drop_first() =~= b@.skip(i + 1));
            assert(sa[0] == sb[0]);
        }
        i = i + 1;
    }
    let ghost sa = a@.skip(i as int);
    let ghost sb = b@.skip(i as int);
    if i == n {
        assert(sa.len() == 0);
        i < m
    } else if i == m {
        false
    } else {
        assert(sa[0] == a@[i as int] && sb[0] == b@[i as int]);
        a[i] < b[i]
    }
}

/// Sort strings ascending.
pub fn sort_names(v: Vec<String>) -> (r: Vec<String>)
    ensures
        names_sorted(views(r@)),
        views(r@).to_multiset() == views(v@).to_multiset(),
{
    let n = v.len();
    let mut out: Vec<String> = Vec::new();
    let mut i: usize = 0;
    assert(views(out@) =~= views(v@.take(0)));
    while i < n
        invariant
            n == v@.len(),
            i <= n,
            names_sorted(views(out@)),
            views(out@).to_multiset() == views(v@.take(i as int)).to_multiset(),
        decreases n - i,
    {
        let x = v[i].clone();
        let xc = chars_of(x.as_str());
        let m = out.len();
        let mut p: usize = 0;
        while p < m && !lt_chars(xc.as_slice(), chars_of(out[p].as_str()).as_slice())
            invariant
                m == out@.len(),
                p <= m,
                xc@ == x@,
                forall|q: int| 0 <= q < p ==> chars_le((#[trigger] out@[q])@, x@),
            decreases m - p,
        {
            p = p + 1;
        }
        let ghost old_out = views(out@);
        let ghost xv = x@;
        out.insert(p, x);
        proof {
            assert(views(out@) =~= old_out.insert(p as int, xv));
            assert(views(v@.take(i + 1)) =~= views(v@.take(i as int)).push(xv));
            assert(views(v@.take(i as int)).push(xv).to_multiset() =~= views(v@.take(i as int)).to_multiset().insert(xv));
            assert(old_out.insert(p as int, xv).to_multiset() =~= old_out.to_multiset().insert(xv));
            assert forall|k: int, l: int| 0 <= k < l < views(out@).len() implies chars_le(#[trigger] views(out@)[k], #[trigger] views(out@)[l]) by {
                let s = views(out@);
                if l < p {
                    assert(s[k] == old_out[k] && s[l] == old_out[l]);
                } else if l == p {
                    assert(s[k] == old_out[k]);
                    assert(chars_le(out@[k]@, xv));
                } else if k > p {
                    assert(s[k] == old_out[k - 1] && s[l] == old_out[l - 1]);
                } else if k == p {
                    assert(s[l] == old_out[l - 1]);
                    assert(chars_lt(xv, old_out[p as int]));
                    if l - 1 > p {
                        assert(chars_le(old_out[p as int], old_out[l - 1]));
                        if chars_lt(old_out[l - 1], xv) {
                            lemma_chars_lt_trans(old_out[l - 1], xv, old_out[p as int]);
                        }
                    }
                    if chars_lt(s[l], xv) {
                        lemma_chars_lt_trans(xv, s[l], xv);
                        assert(false) by {
                            lemma_chars_lt_irrefl(xv);
                        }
                    }
                } else {
                    assert(s[k] == old_out[k] && s[l] == old_out[l - 1]);
                }
            }
        }
        i = i + 1;
    }
    assert(v@.take(n as int) =~= v@);
    out
}

/// No string comes before itself.
pub proof fn lemma_chars_lt_irrefl(a: Seq<char>)
    ensures
        !chars_lt(a, a),
    decreases a.len(),
{
    if a.len() > 0 {
        lemma_chars_lt_irrefl(a.drop_first());
    }
}

/// The asset is read as a COG (a missing `type` or `href` counts as empty).
pub open spec fn asset_is_cog(a: StacAsset) -> bool {
    cog_asset(text_or(a.media_type, ""@), text_or(a.href, ""@))
}

/// Keys of the COG assets, in document order.
pub open spec fn cog_names(a: Seq<StacAsset>) -> Seq<Seq<char>>
    decreases a.len(),
{
    if a.len() == 0 {
        Seq::empty()
    } else {
        let rest = cog_names(a.drop_last());
        if asset_is_cog(a.last()) {
            rest.push(a.last().name@)
        } else {
            rest
        }
    }
}

fn asset_cog(a: &StacAsset) -> (r: bool)
    ensures
        r == asset_is_cog(*a),
{
    proof {
        reveal_strlit("");
    }
    let t: &str = match &a.media_type {
        Some(t) => t.as_str(),
        None => "",
    };
    let h: &str = match &a.href {
        Some(h) => h.as_str(),
        None => "",
    };
    crate::store::is_cog_asset(t, h)
}

/// Names of the COG assets of a STAC item, sorted. Fails when the item has no
/// `assets` object or no COG asset.
pub fn cog_asset_names(feature: &StacFeature) -> (r: Result<Vec<String>, String>)
    ensures
        match feature.assets {
            None => fails_with(r, "STAC item has no assets"@),
            Some(a) => if cog_names(a@).len() == 0 {
                fails_with(r, "STAC FeatureCollection has no COG assets"@)
            } else {
                r matches Ok(v) && names_sorted(views(v@)) && views(v@).to_multiset() == cog_names(
                    a@,
                ).to_multiset()
            },
        },
{
    proof {
        reveal_strlit("STAC item has no assets");
        reveal_strlit("STAC FeatureCollection has no COG assets");
    }
    let assets = match &feature.assets {
        None => {
            return Err(String::from_str("STAC item has no assets"));
        },
        Some(a) => a,
    };
    let n = assets.len();
    let mut names: Vec<String> = Vec::new();
    let mut i: usize = 0;
    assert(assets@.take(0) =~= Seq::<StacAsset>::empty());
    while i < n
        invariant
            n == assets@.len(),
            i <= n,
            views(names@) == cog_names(assets@.take(i as int)),
        decreases n - i,
    {
        assert(assets@.take(i + 1).drop_last() =~= assets@.take(i as int));
        assert(assets@.take(i + 1).last() == assets@[i as int]);
        if asset_cog(&assets[i]) {
            names.push(assets[i].name.clone());
            assert(views(names@) =~= cog_names(assets@.take(i as int)).push(assets@[i as int].name@));
        }
        i = i + 1;
    }
    assert(assets@.take(n as int) =~= assets@);
    if names.len() == 0 {
        return Err(String::from_str("STAC FeatureCollection has no COG assets"));
    }
    Ok(sort_names(names))
}

/// Position of the asset named `name`.
pub open spec fn asset_index(a: Seq<StacAsset>, name: Seq<char>) -> Option<int> {
    if exists|i: int| 0 <= i < a.len() && (#[trigger] a[i]).name@ == name {
        Some(choose|i: int| 0 <= i < a.len() && (#[trigger] a[i]).name@ == name && forall|j: int| 0 <= j < i ==> (#[trigger] a[j]).name@ != name)
    } else {
        None
    }
}

/// The `href` of asset `name` of a feature, or why it has none.
pub open spec fn asset_href_of(f: StacFeature, name: Seq<char>) -> Result<Seq<char>, Seq<char>> {
    match f.assets {
        None => Err("STAC feature has no assets"@),
        Some(a) => match asset_index(a@, name) {
            None => Err("STAC feature missing asset "@ + name),
            Some(i) => match a@[i].href {
                None => Err("STAC feature asset "@ + name + " missing href"@),
                Some(h) => Ok(h@),
            },
        },
    }
}

/// The `href` of a feature's asset `name`.
pub fn feature_asset_href(feature: &StacFeature, name: &str) -> (r: Result<String, String>)
    ensures
        match asset_href_of(*feature, name@) {
            Ok(h) => r matches Ok(v) && v@ == h,
            Err(e) => fails_with(r, e),
        },
{
    proof {
        reveal_strlit("STAC feature has no assets");
    }
    let assets = match &feature.assets {
        None => {
            return Err(String::from_str("STAC feature has no assets"));
        },
        Some(a) => a,
    };
    let n = assets.len();
    let key = chars_of(name);
    let mut i: usize = 0;
    while i < n
        invariant
            feature.assets == Some(*assets),
            n == assets@.len(),
            i <= n,
            key@ == name@,
            forall|j: int| 0 <= j < i ==> (#[trigger] assets@[j]).name@ != name@,
        decreases n - i,
    {
        if eq_str(key.as_slice(), assets[i].name.as_str()) {
            assert(asset_index(assets@, name@) == Some(i as int)) by {
                let w = choose|k: int| 0 <= k < assets@.len() && (#[trigger] assets@[k]).name@ == name@ && forall|j: int| 0 <= j < k ==> (#[trigger] assets@[j]).name@ != name@;
                assert(assets@[i as int].name@ == name@);
                if w < i {
                    assert(assets@[w].name@ != name@);
                } else if w > i {
                    assert(assets@[i as int].name@ != name@);
                }
            }
            return match &assets[i].href {
                Some(h) => Ok(h.clone()),
                None => {
                    let mut m: Vec<char> = Vec::new();
                    push_str(&mut m, "STAC feature asset ");
                    push_str(&mut m, name);
                    push_str(&mut m, " missing href");
                    Err(string_of(m.as_slice()))
                },
            };
        }
        i = i + 1;
    }
    let mut m: Vec<char> = Vec::new();
    push_str(&mut m, "STAC feature missing asset ");
    push_str(&mut m, name);
    Err(string_of(m.as_slice()))
}

/// The href of asset `names[a]` of the feature at time position `k`.
#[verifier::opaque]
pub open spec fn job_href(fs: Seq<StacFeature>, order: Seq<(i64, usize)>, names: Seq<String>, a: int, k: int) -> Result<Seq<char>, Seq<char>> {
    asset_href_of(fs[order[k].1 as int], names[a]@)
}

proof fn lemma_job_href(fs: Seq<StacFeature>, order: Seq<(i64, usize)>, names: Seq<String>, a: int, k: int)
    ensures
        job_href(fs, order, names, a, k) == asset_href_of(fs[order[k].1 as int], names[a]@),
{
    reveal(job_href);
}

/// The href of asset `names[a]` at time position `k`, resolved against `path`.
pub open spec fn job_resolved(fs: Seq<StacFeature>, order: Seq<(i64, usize)>, names: Seq<String>, path: Seq<char>, a: int, k: int) -> Seq<char> {
    match job_href(fs, order, names, a, k) {
        Ok(h) => if absolute_href(h) { h } else { dir_prefix(path) + h },
        Err(_) => Seq::empty(),
    }
}

/// Resolve the tile href of every COG asset of every feature of a collection,
/// in time order, against the collection's location `path`: `r[a][k]` is the
/// href of asset `names[a]` at time position `k`. Fails at the first asset and
/// time position (asset-major) whose href is missing.
pub fn asset_hrefs(path: &str, features: &Vec<StacFeature>, order: &Vec<(i64, usize)>, names: &Vec<String>) -> (r: Result<Vec<Vec<String>>, String>)
    requires
        forall|k: int| 0 <= k < order@.len() ==> (#[trigger] order@[k]).1 < features@.len(),
    ensures
        (forall|a: int, k: int| 0 <= a < names@.len() && 0 <= k < order@.len() ==> job_href(features@, order@, names@, a, k) is Ok)
            ==> (r matches Ok(h) && h@.len() == names@.len()
                && (forall|a: int| 0 <= a < names@.len() ==> (#[trigger] h@[a])@.len() == order@.len())
                && forall|a: int, k: int| 0 <= a < names@.len() && 0 <= k < order@.len()
                ==> (#[trigger] h@[a]@[k])@ == job_resolved(features@, order@, names@, path@, a, k)),
        r matches Err(e) ==> exists|a: int, k: int| 0 <= a < names@.len() && 0 <= k < order@.len()
            && job_href(features@, order@, names@, a, k) == Err::<Seq<char>, Seq<char>>(e@)
            && (forall|a2: int, k2: int| 0 <= a2 < a && 0 <= k2 < order@.len() ==> job_href(features@, order@, names@, a2, k2) is Ok)
            && (forall|k2: int| 0 <= k2 < k ==> job_href(features@, order@, names@, a, k2) is Ok),
{
    let na = names.len();
    let nk = order.len();
    let mut out: Vec<Vec<String>> = Vec::new();
    let mut a: usize = 0;
    while a < na
        invariant
            na == names@.len(),
            nk == order@.len(),
            forall|k: int| 0 <= k < order@.len() ==> (#[trigger] order@[k]).1 < features@.len(),
            a <= na,
            out@.len() == a,
            forall|a2: int, k2: int| 0 <= a2 < a && 0 <= k2 < nk ==> job_href(features@, order@, names@, a2, k2) is Ok,
            forall|a2: int| 0 <= a2 < a ==> (#[trigger] out@[a2])@.len() == nk,
            forall|a2: int, k2: int| 0 <= a2 < a && 0 <= k2 < nk
                ==> (#[trigger] out@[a2]@[k2])@ == job_resolved(features@, order@, names@, path@, a2, k2),
        decreases na - a,
    {
        let mut row: Vec<String> = Vec::new();
        let mut k: usize = 0;
        while k < nk
            invariant
                out@.len() == a,
                forall|a2: int| 0 <= a2 < a ==> (#[trigger] out@[a2])@.len() == nk,
                forall|a2: int, k2: int| 0 <= a2 < a && 0 <= k2 < nk
                    ==> (#[trigger] out@[a2]@[k2])@ == job_resolved(features@, order@, names@, path@, a2, k2),
                na == names@.len(),
                nk == order@.len(),
                forall|k: int| 0 <= k < order@.len() ==> (#[trigger] order@[k]).1 < features@.len(),
                a < na,
                k <= nk,
                row@.len() == k,
                forall|a2: int, k2: int| 0 <= a2 < a && 0 <= k2 < nk ==> job_href(features@, order@, names@, a2, k2) is Ok,
                forall|k2: int| 0 <= k2 < k ==> job_href(features@, order@, names@, a as int, k2) is Ok,
                forall|k2: int| 0 <= k2 < k ==> (#[trigger] row@[k2])@ == job_resolved(features@, order@, names@, path@, a as int, k2),
            decreases nk - k,
        {
            let fi = order[k].1;
            proof {
                lemma_job_href(features@, order@, names@, a as int, k as int);
            }
            match feature_asset_href(&features[fi], names[a].as_str()) {
                Ok(h) => {
                    let abs = resolve_asset_href(path, h.as_str());
                    row.push(abs);
                    assert(row@[k as int]@ == job_resolved(features@, order@, names@, path@, a as int, k as int));
                },
                Err(e) => {
                    assert(job_href(features@, order@, names@, a as int, k as int) == Err::<Seq<char>, Seq<char>>(e@));
                    return Err(e);
                },
            }
            k = k + 1;
        }
        let ghost row_v = row@;
        out.push(row);
        assert(out@[a as int]@ == row_v);
        a = a + 1;
    }
    Ok(out)
}

/// Index in `built` of the last child built for asset `a` at time position `i`.
pub open spec fn built_slot(built: Seq<(usize, usize)>, a: int, i: int) -> Option<int> {
    if exists|j: int| 0 <= j < built.len() && built[j] == (a as usize, i as usize) {
        Some(choose|j: int| 0 <= j < built.len() && built[j] == (a as usize, i as usize) && forall|j2: int| j < j2 < built.len() ==> built[j2] != (a as usize, i as usize))
    } else {
        None
    }
}

fn last_built(built: &Vec<(usize, usize)>, a: usize, i: usize) -> (r: Option<usize>)
    ensures
        r is None <==> built_slot(built@, a as int, i as int) is None,
        r matches Some(j) ==> built_slot(built@, a as int, i as int) == Some(j as int),
{
    let mut j: usize = built.len();
    while j > 0
        invariant
            j <= built@.len(),
            forall|j2: int| j <= j2 < built@.len() ==> built@[j2] != (a, i),
        decreases j,
    {
        if built[j - 1].0 == a && built[j - 1].1 == i {
            let k: usize = j - 1;
            assert(built@[k as int] == (a, i));
            let ghost w = choose|m: int| 0 <= m < built@.len() && built@[m] == (a, i) && forall|j2: int| m < j2 < built@.len() ==> built@[j2] != (a, i);
            assert(0 <= w < built@.len() && built@[w] == (a, i) && forall|j2: int| w < j2 < built@.len() ==> built@[j2] != (a, i));
            assert(w == k) by {
                if w < k {
                    assert(built@[k as int] != (a, i));
                } else if w > k {
                    assert(built@[w] != (a, i));
                }
            }
            return Some(k);
        }
        j = j - 1;
    }
    assert(!(exists|j: int| 0 <= j < built@.len() && built@[j] == (a, i)));
    None
}

/// Lay the children built for a time stack out by asset and time position:
/// `r[a][i]` is the index in `built` of the child `(a, i)` (the last one built
/// for that slot). Fails at the first asset (in `names` order) with a slot
/// that no child fills.
pub fn assemble_time_stack(names: &Vec<String>, n: usize, built: &Vec<(usize, usize)>) -> (r: Result<Vec<Vec<usize>>, String>)
    ensures
        (forall|a: int, i: int| 0 <= a < names@.len() && 0 <= i < n ==> built_slot(built@, a, i) is Some) ==> (r matches Ok(s)
            && s@.len() == names@.len()
            && (forall|a: int| 0 <= a < names@.len() ==> (#[trigger] s@[a])@.len() == n)
            && forall|a: int, i: int| 0 <= a < names@.len() && 0 <= i < n
                ==> built_slot(built@, a, i) == Some(#[trigger] s@[a]@[i] as int)),
        r matches Err(e) ==> exists|a: int| 0 <= a < names@.len()
            && (exists|i: int| 0 <= i < n && built_slot(built@, a, i) is None)
            && (forall|a2: int, i: int| 0 <= a2 < a && 0 <= i < n ==> built_slot(built@, a2, i) is Some)
            && e@ == "STAC FeatureCollection: missing asset "@ + debug_quoted(names@[a]@) + " on some item"@,
{
    let na = names.len();
    let mut out: Vec<Vec<usize>> = Vec::new();
    let mut a: usize = 0;
    while a < na
        invariant
            na == names@.len(),
            a <= na,
            out@.len() == a,
            forall|a2: int| 0 <= a2 < a ==> (#[trigger] out@[a2])@.len() == n,
            forall|a2: int, i: int| 0 <= a2 < a && 0 <= i < n ==> built_slot(built@, a2, i) == Some(#[trigger] out@[a2]@[i] as int),
        decreases na - a,
    {
        let mut row: Vec<usize> = Vec::new();
        let mut i: usize = 0;
        while i < n
            invariant
                na == names@.len(),
                out@.len() == a,
                forall|a2: int| 0 <= a2 < a ==> (#[trigger] out@[a2])@.len() == n,
                forall|a2: int, i: int| 0 <= a2 < a && 0 <= i < n ==> built_slot(built@, a2, i) == Some(#[trigger] out@[a2]@[i] as int),
                a < na,
                i <= n,
                row@.len() == i,
                forall|i2: int| 0 <= i2 < i ==> built_slot(built@, a as int, i2) == Some(#[trigger] row@[i2] as int),
            decreases n - i,
        {
            match last_built(built, a, i) {
                Some(j) => row.push(j),
                None => {
                    let mut m: Vec<char> = Vec::new();
                    push_str(&mut m, "STAC FeatureCollection: missing asset ");
                    let d = debug_text(names[a].as_str());
                    push_str(&mut m, d.as_str());
                    push_str(&mut m, " on some item");
                    assert forall|a2: int, i2: int| 0 <= a2 < a && 0 <= i2 < n implies built_slot(built@, a2, i2) is Some by {
                        assert(built_slot(built@, a2, i2) == Some(out@[a2]@[i2] as int));
                    }
                    return Err(string_of(m.as_slice()));
                },
            }
            i = i + 1;
        }
        out.push(row);
        a = a + 1;
    }
    Ok(out)
}

} // verus!
