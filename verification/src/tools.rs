//! The SQL the agent tools run: quoting of user text, the pushed-down named
//! arguments of `read_geo` / `plan_read_geo`, table-name validation, and the
//! statements that park a result in a temporary table.

use vstd::prelude::*;
use crate::text::{chars_of, push_all, push_decimal, push_str, string_of, decimal, join, contains_seq, occurs_at};

verus! {

/// `s` with every `'` doubled, for use inside a single-quoted SQL literal.
pub open spec fn escaped_sql(s: Seq<char>) -> Seq<char>
    decreases s.len(),
{
    if s.len() == 0 {
        Seq::empty()
    } else {
        escaped_sql(s.drop_last()) + if s.last() == '\'' {
            seq!['\'', '\'']
        } else {
            seq![s.last()]
        }
    }
}

/// Escape single quotes for embedding a value inside a single-quoted SQL
/// string literal.
pub fn esc(s: &str) -> (r: String)
    ensures
        r@ == escaped_sql(s@),
{
    let c = chars_of(s);
    let n = c.len();
    let mut out: Vec<char> = Vec::new();
    let mut i: usize = 0;
    assert(c@.take(0) =~= Seq::<char>::empty());
    while i < n
        invariant
            n == c@.len(),
            c@ == s@,
            i <= n,
            out@ == escaped_sql(c@.take(i as int)),
        decreases n - i,
    {
        assert(c@.take(i + 1).drop_last() =~= c@.take(i as int));
        if c[i] == '\'' {
            out.push('\'');
            out.push('\'');
        } else {
            out.push(c[i]);
        }
        assert(out@ =~= escaped_sql(c@.take(i + 1)));
        i = i + 1;
    }
    assert(c@.take(n as int) =~= c@);
    string_of(out.as_slice())
}

/// The bounding-box values of a tool call that are numbers, as text.
#[derive(Debug)]
pub struct BboxArgs {
    pub lon_min: Option<String>,
    pub lat_min: Option<String>,
    pub lon_max: Option<String>,
    pub lat_max: Option<String>,
}

/// The time-window values of a tool call that are numbers, as text.
#[derive(Debug)]
pub struct TimeArgs {
    pub min: Option<String>,
    pub max: Option<String>,
}

/// `name := value` when the value is there.
pub open spec fn named_arg(name: Seq<char>, v: Option<String>) -> Seq<Seq<char>> {
    match v {
        Some(t) => seq![name + " := "@ + t@],
        None => Seq::empty(),
    }
}

/// The named arguments pushed down, in order: bounding box, time window, asset.
pub open spec fn pushdown_parts(bbox: Option<BboxArgs>, time: Option<TimeArgs>, asset: Option<Seq<char>>) -> Seq<Seq<char>> {
    (match bbox {
        Some(b) => named_arg("lon_min"@, b.lon_min) + named_arg("lat_min"@, b.lat_min) + named_arg("lon_max"@, b.lon_max)
            + named_arg("lat_max"@, b.lat_max),
        None => Seq::empty(),
    }) + (match time {
        Some(t) => named_arg("time_min"@, t.min) + named_arg("time_max"@, t.max),
        None => Seq::empty(),
    }) + (match asset {
        Some(a) => seq!["asset := '"@ + escaped_sql(a) + "'"@],
        None => Seq::empty(),
    })
}

/// The argument suffix: empty, or `, ` followed by the parts joined by `, `.
pub open spec fn pushdown_text(parts: Seq<Seq<char>>) -> Seq<char> {
    if parts.len() == 0 {
        Seq::empty()
    } else {
        ", "@ + join(parts, ", "@)
    }
}

proof fn lemma_join_holds_each(parts: Seq<Seq<char>>, k: int)
    requires
        0 <= k < parts.len(),
    ensures
        contains_seq(", "@ + join(parts, ", "@), ", "@ + parts[k]),
    decreases parts.len(),
{
    let sep = ", "@;
    let p = sep + parts[k];
    if parts.len() == 1 {
        assert(", "@ + join(parts, sep) =~= p);
        assert(p.subrange(0, p.len() as int) =~= p);
        assert(occurs_at(p, p, 0));
    } else {
        let init = parts.drop_last();
        let whole = sep + join(parts, sep);
        assert(whole =~= (sep + join(init, sep)) + (sep + parts.last()));
        if k == parts.len() - 1 {
            let at = (sep + join(init, sep)).len() as int;
            assert(whole.subrange(at, at + p.len()) =~= p);
            assert(occurs_at(whole, p, at));
        } else {
            lemma_join_holds_each(init, k);
            assert(init[k] == parts[k]);
            let pre = sep + join(init, sep);
            let at = choose|i: int| occurs_at(pre, p, i);
            assert(whole.subrange(at, at + p.len()) =~= pre.subrange(at, at + p.len()));
            assert(occurs_at(whole, p, at));
        }
    }
}

/// `name := value` for a value that is there stands among the parts.
proof fn lemma_part_in_text(parts: Seq<Seq<char>>, k: int, p: Seq<char>)
    requires
        0 <= k < parts.len(),
        parts[k] == p,
    ensures
        contains_seq(pushdown_text(parts), ", "@ + p),
{
    lemma_join_holds_each(parts, k);
}

proof fn lemma_part_between(a: Seq<Seq<char>>, p: Seq<char>, c: Seq<Seq<char>>)
    ensures
        contains_seq(pushdown_text(a + seq![p] + c), ", "@ + p),
{
    let parts = a + seq![p] + c;
    assert(parts[a.len() as int] == p);
    lemma_part_in_text(parts, a.len() as int, p);
}

/// Named arguments of a bounding box.
pub open spec fn bbox_parts(b: BboxArgs) -> Seq<Seq<char>> {
    named_arg("lon_min"@, b.lon_min) + named_arg("lat_min"@, b.lat_min) + named_arg("lon_max"@, b.lon_max)
        + named_arg("lat_max"@, b.lat_max)
}

/// Named arguments of a time window.
pub open spec fn time_parts(t: TimeArgs) -> Seq<Seq<char>> {
    named_arg("time_min"@, t.min) + named_arg("time_max"@, t.max)
}

proof fn lemma_bbox_named(b: BboxArgs, pre: Seq<Seq<char>>, rest: Seq<Seq<char>>)
    ensures
        ({
            let text = pushdown_text(pre + bbox_parts(b) + rest);
            &&& b.lon_min matches Some(v) ==> contains_seq(text, ", "@ + ("lon_min"@ + " := "@ + v@))
            &&& b.lat_min matches Some(v) ==> contains_seq(text, ", "@ + ("lat_min"@ + " := "@ + v@))
            &&& b.lon_max matches Some(v) ==> contains_seq(text, ", "@ + ("lon_max"@ + " := "@ + v@))
            &&& b.lat_max matches Some(v) ==> contains_seq(text, ", "@ + ("lat_max"@ + " := "@ + v@))
        }),
{
    let parts = pre + bbox_parts(b) + rest;
    let n0 = named_arg("lon_min"@, b.lon_min);
    let n1 = named_arg("lat_min"@, b.lat_min);
    let n2 = named_arg("lon_max"@, b.lon_max);
    let n3 = named_arg("lat_max"@, b.lat_max);
    assert(b.lon_min matches Some(v) ==> contains_seq(pushdown_text(parts), ", "@ + ("lon_min"@ + " := "@ + v@))) by {
        if b.lon_min is Some {
            let x = "lon_min"@ + " := "@ + b.lon_min->0@;
            assert(parts =~= pre + seq![x] + (n1 + n2 + n3 + rest));
            lemma_part_between(pre, x, n1 + n2 + n3 + rest);
        }
    }
    assert(b.lat_min matches Some(v) ==> contains_seq(pushdown_text(parts), ", "@ + ("lat_min"@ + " := "@ + v@))) by {
        if b.lat_min is Some {
            let x = "lat_min"@ + " := "@ + b.lat_min->0@;
            assert(parts =~= (pre + n0) + seq![x] + (n2 + n3 + rest));
            lemma_part_between(pre + n0, x, n2 + n3 + rest);
        }
    }
    assert(b.lon_max matches Some(v) ==> contains_seq(pushdown_text(parts), ", "@ + ("lon_max"@ + " := "@ + v@))) by {
        if b.lon_max is Some {
            let x = "lon_max"@ + " := "@ + b.lon_max->0@;
            assert(parts =~= (pre + n0 + n1) + seq![x] + (n3 + rest));
            lemma_part_between(pre + n0 + n1, x, n3 + rest);
        }
    }
    assert(b.lat_max matches Some(v) ==> contains_seq(pushdown_text(parts), ", "@ + ("lat_max"@ + " := "@ + v@))) by {
        if b.lat_max is Some {
            let x = "lat_max"@ + " := "@ + b.lat_max->0@;
            assert(parts =~= (pre + n0 + n1 + n2) + seq![x] + rest);
            lemma_part_between(pre + n0 + n1 + n2, x, rest);
        }
    }
}

proof fn lemma_time_named(t: TimeArgs, pre: Seq<Seq<char>>, rest: Seq<Seq<char>>)
    ensures
        ({
            let text = pushdown_text(pre + time_parts(t) + rest);
            &&& t.min matches Some(v) ==> contains_seq(text, ", "@ + ("time_min"@ + " := "@ + v@))
            &&& t.max matches Some(v) ==> contains_seq(text, ", "@ + ("time_max"@ + " := "@ + v@))
        }),
{
    let parts = pre + time_parts(t) + rest;
    let m0 = named_arg("time_min"@, t.min);
    let m1 = named_arg("time_max"@, t.max);
    if t.min is Some {
        let x = "time_min"@ + " := "@ + t.min->0@;
        assert(parts =~= pre + seq![x] + (m1 + rest));
        lemma_part_between(pre, x, m1 + rest);
    }
    if t.max is Some {
        let x = "time_max"@ + " := "@ + t.max->0@;
        assert(parts =~= (pre + m0) + seq![x] + rest);
        lemma_part_between(pre + m0, x, rest);
    }
}

/// Every bound of the bounding box and of the time window that a tool call
/// gives is pushed down under its own name: the argument text holds
/// `, lon_min := v`, `, lat_min := v`, `, lon_max := v`, `, lat_max := v`,
/// `, time_min := v` and `, time_max := v` for each value `v` given, and
/// `, asset := '<a>'` for an asset `a` (quotes doubled).
pub proof fn lemma_pushdown_names_each_bound(bbox: Option<BboxArgs>, time: Option<TimeArgs>, asset: Option<Seq<char>>)
    ensures
        ({
            let text = pushdown_text(pushdown_parts(bbox, time, asset));
            &&& bbox matches Some(b) ==> (b.lon_min matches Some(v) ==> contains_seq(text, ", "@ + ("lon_min"@ + " := "@ + v@)))
            &&& bbox matches Some(b) ==> (b.lat_min matches Some(v) ==> contains_seq(text, ", "@ + ("lat_min"@ + " := "@ + v@)))
            &&& bbox matches Some(b) ==> (b.lon_max matches Some(v) ==> contains_seq(text, ", "@ + ("lon_max"@ + " := "@ + v@)))
            &&& bbox matches Some(b) ==> (b.lat_max matches Some(v) ==> contains_seq(text, ", "@ + ("lat_max"@ + " := "@ + v@)))
            &&& time matches Some(t) ==> (t.min matches Some(v) ==> contains_seq(text, ", "@ + ("time_min"@ + " := "@ + v@)))
            &&& time matches Some(t) ==> (t.max matches Some(v) ==> contains_seq(text, ", "@ + ("time_max"@ + " := "@ + v@)))
            &&& asset matches Some(a) ==> contains_seq(text, ", "@ + ("asset := '"@ + escaped_sql(a) + "'"@))
        }),
{
    let parts = pushdown_parts(bbox, time, asset);
    let bb = match bbox {
        Some(b) => bbox_parts(b),
        None => Seq::<Seq<char>>::empty(),
    };
    let tt = match time {
        Some(t) => time_parts(t),
        None => Seq::<Seq<char>>::empty(),
    };
    let aa = match asset {
        Some(a) => seq!["asset := '"@ + escaped_sql(a) + "'"@],
        None => Seq::<Seq<char>>::empty(),
    };
    assert(parts == bb + tt + aa);
    if bbox is Some {
        assert(parts =~= Seq::<Seq<char>>::empty() + bbox_parts(bbox->0) + (tt + aa));
        lemma_bbox_named(bbox->0, Seq::<Seq<char>>::empty(), tt + aa);
    }
    if time is Some {
        assert(parts =~= bb + time_parts(time->0) + aa);
        lemma_time_named(time->0, bb, aa);
    }
    if asset is Some {
        let x = "asset := '"@ + escaped_sql(asset->0) + "'"@;
        assert(parts =~= (bb + tt) + seq![x] + Seq::<Seq<char>>::empty());
        lemma_part_between(bb + tt, x, Seq::<Seq<char>>::empty());
    }
}

pub open spec fn opt_str(o: Option<&str>) -> Option<Seq<char>> {
    match o {
        Some(s) => Some(s@),
        None => None,
    }
}

pub open spec fn opt_ref<T>(o: Option<&T>) -> Option<T> {
    match o {
        Some(t) => Some(*t),
        None => None,
    }
}

fn push_named(parts: &mut Vec<Vec<char>>, name: &str, v: &Option<String>)
    ensures
        final(parts)@.len() == old(parts)@.len() + named_arg(name@, *v).len(),
        forall|i: int| 0 <= i < old(parts)@.len() ==> (#[trigger] final(parts)@[i]) == old(parts)@[i],
        forall|i: int| 0 <= i < named_arg(name@, *v).len() ==> final(parts)@[old(parts)@.len() + i]@ == named_arg(name@, *v)[i],
{
    match v {
        Some(t) => {
            let mut p = chars_of(name);
            push_str(&mut p, " := ");
            push_str(&mut p, t.as_str());
            parts.push(p);
        },
        None => {},
    }
}

pub open spec fn char_views(v: Seq<Vec<char>>) -> Seq<Seq<char>> {
    v.map_values(|x: Vec<char>| x@)
}

/// Named `read_geo` / `plan_read_geo` arguments for the pushed-down bounding
/// box, time window and asset, e.g. `, lon_min := 1, lat_min := 2, asset := 'a'`;
/// empty when nothing is pushed down.
pub fn pushdown_args(bbox: Option<&BboxArgs>, time: Option<&TimeArgs>, asset: Option<&str>) -> (r: String)
    ensures
        r@ == pushdown_text(pushdown_parts(opt_ref(bbox), opt_ref(time), opt_str(asset))),
{
    let mut parts: Vec<Vec<char>> = Vec::new();
    let ghost want = pushdown_parts(opt_ref(bbox), opt_ref(time), opt_str(asset));
    match bbox {
        Some(b) => {
            push_named(&mut parts, "lon_min", &b.lon_min);
            push_named(&mut parts, "lat_min", &b.lat_min);
            push_named(&mut parts, "lon_max", &b.lon_max);
            push_named(&mut parts, "lat_max", &b.lat_max);
        },
        None => {},
    }
    let ghost after_bbox = char_views(parts@);
    assert(after_bbox =~= match opt_ref(bbox) {
        Some(b) => named_arg("lon_min"@, b.lon_min) + named_arg("lat_min"@, b.lat_min) + named_arg("lon_max"@, b.lon_max)
            + named_arg("lat_max"@, b.lat_max),
        None => Seq::<Seq<char>>::empty(),
    });
    match time {
        Some(t) => {
            push_named(&mut parts, "time_min", &t.min);
            push_named(&mut parts, "time_max", &t.max);
        },
        None => {},
    }
    let ghost after_time = char_views(parts@);
    assert(after_time =~= after_bbox + match opt_ref(time) {
        Some(t) => named_arg("time_min"@, t.min) + named_arg("time_max"@, t.max),
        None => Seq::<Seq<char>>::empty(),
    });
    match asset {
        Some(a) => {
            let mut p: Vec<char> = Vec::new();
            push_str(&mut p, "asset := '");
            let e = esc(a);
            push_str(&mut p, e.as_str());
            push_str(&mut p, "'");
            parts.push(p);
        },
        None => {},
    }
    assert(char_views(parts@) =~= want);
    if parts.len() == 0 {
        proof {
            reveal_strlit("");
        }
        return String::from_str("");
    }
    let mut out: Vec<char> = Vec::new();
    push_str(&mut out, ", ");
    push_joined_chars(&mut out, &parts, ", ");
    string_of(out.as_slice())
}

/// Append `parts` joined by `sep`.
fn push_joined_chars(out: &mut Vec<char>, parts: &Vec<Vec<char>>, sep: &str)
    ensures
        final(out)@ == old(out)@ + join(char_views(parts@), sep@),
{
    let n = parts.len();
    let ghost init = out@;
    let mut i: usize = 0;
    assert(char_views(parts@).take(0) =~= Seq::<Seq<char>>::empty());
    while i < n
        invariant
            n == parts@.len(),
            i <= n,
            out@ == init + join(char_views(parts@).take(i as int), sep@),
        decreases n - i,
    {
        let ghost pre = char_views(parts@).take(i as int);
        let ghost post = char_views(parts@).take(i + 1);
        assert(post.drop_last() =~= pre);
        if i > 0 {
            push_str(out, sep);
        }
        push_all(out, parts[i].as_slice());
        proof {
            if i == 0 {
                assert(post.len() == 1);
            }
        }
        assert(out@ =~= init + join(post, sep@));
        i = i + 1;
    }
    assert(char_views(parts@).take(n as int) =~= char_views(parts@));
}

/// Rows inlined in a tool result when the caller gives no limit.
pub const DEFAULT_LIMIT: usize = 1000;

/// The row limit of a tool call.
pub fn result_limit(limit: Option<usize>) -> (r: usize)
    ensures
        r == match limit {
            Some(l) => l,
            None => DEFAULT_LIMIT,
        },
{
    match limit {
        Some(l) => l,
        None => DEFAULT_LIMIT,
    }
}

/// `SELECT * FROM <function>('<uri>'<args>)`.
pub open spec fn table_call_sql(function: Seq<char>, uri: Seq<char>, args: Seq<char>) -> Seq<char> {
    "SELECT * FROM "@ + function + "('"@ + escaped_sql(uri) + "'"@ + args + ")"@
}

fn table_call(function: &str, uri: &str, args: &str) -> (r: String)
    ensures
        r@ == table_call_sql(function@, uri@, args@),
{
    let mut v: Vec<char> = Vec::new();
    push_str(&mut v, "SELECT * FROM ");
    push_str(&mut v, function);
    push_str(&mut v, "('");
    let e = esc(uri);
    push_str(&mut v, e.as_str());
    push_str(&mut v, "'");
    push_str(&mut v, args);
    push_str(&mut v, ")");
    string_of(v.as_slice())
}

/// The query of `describe_dataset`.
pub fn describe_dataset_sql(uri: &str) -> (r: String)
    ensures
        r@ == table_call_sql("read_zarr_metadata"@, uri@, Seq::empty()),
{
    proof {
        reveal_strlit("");
    }
    table_call("read_zarr_metadata", uri, "")
}

/// The query of `estimate_cost`.
pub fn estimate_cost_sql(uri: &str, bbox: Option<&BboxArgs>, time: Option<&TimeArgs>) -> (r: String)
    ensures
        r@ == table_call_sql("plan_read_geo"@, uri@, pushdown_text(pushdown_parts(opt_ref(bbox), opt_ref(time), None))),
{
    let args = pushdown_args(bbox, time, None);
    table_call("plan_read_geo", uri, args.as_str())
}

/// The query of `read_region`.
pub fn read_region_sql(uri: &str, bbox: Option<&BboxArgs>, time: Option<&TimeArgs>, asset: Option<&str>) -> (r: String)
    ensures
        r@ == table_call_sql("read_geo"@, uri@, pushdown_text(pushdown_parts(opt_ref(bbox), opt_ref(time), opt_str(asset)))),
{
    let args = pushdown_args(bbox, time, asset);
    table_call("read_geo", uri, args.as_str())
}

/// Unicode alphanumeric property of a character (`Alphabetic` or `Numeric`).
pub uninterp spec fn alphanumeric(c: char) -> bool;

/// `char::is_alphanumeric`. The Unicode tables it consults are not stated:
/// the result is named.
#[verifier::external_body]
fn is_alphanumeric(c: char) -> (r: bool)
    ensures
        r == alphanumeric(c),
{
    c.is_alphanumeric()
}

/// A table name that may be spliced into SQL: non-empty, and only
/// alphanumeric characters and underscores.
pub open spec fn valid_table_name(name: Seq<char>) -> bool {
    name.len() > 0 && forall|i: int| 0 <= i < name.len() ==> alphanumeric(#[trigger] name[i]) || name[i] == '_'
}

/// The two queries of `describe_table` (schema, then a five-row sample), or
/// `invalid table name` when the name may not be spliced into SQL.
pub fn describe_table_sql(name: &str) -> (r: Result<(String, String), String>)
    ensures
        r is Ok <==> valid_table_name(name@),
        r matches Ok((d, s)) ==> d@ == "DESCRIBE "@ + name@ && s@ == "SELECT * FROM "@ + name@ + " LIMIT 5"@,
        r matches Err(e) ==> e@ == "invalid table name"@,
{
    proof {
        reveal_strlit("invalid table name");
    }
    let c = chars_of(name);
    let n = c.len();
    if n == 0 {
        return Err(String::from_str("invalid table name"));
    }
    let mut i: usize = 0;
    while i < n
        invariant
            n == c@.len(),
            c@ == name@,
            i <= n,
            forall|j: int| 0 <= j < i ==> alphanumeric(#[trigger] c@[j]) || c@[j] == '_',
        decreases n - i,
    {
        if !(is_alphanumeric(c[i]) || c[i] == '_') {
            return Err(String::from_str("invalid table name"));
        }
        i = i + 1;
    }
    let mut d: Vec<char> = Vec::new();
    push_str(&mut d, "DESCRIBE ");
    push_str(&mut d, name);
    let mut s: Vec<char> = Vec::new();
    push_str(&mut s, "SELECT * FROM ");
    push_str(&mut s, name);
    push_str(&mut s, " LIMIT 5");
    Ok((string_of(d.as_slice()), string_of(s.as_slice())))
}

/// The query of `list_tables`.
pub fn list_tables_sql() -> (r: String)
    ensures
        r@ == "SELECT table_name FROM information_schema.tables ORDER BY table_name"@,
{
    String::from_str("SELECT table_name FROM information_schema.tables ORDER BY table_name")
}

/// The statements that park the result of `select_sql` in the temporary table
/// `mcp_result_<seq>`: the table's name, its creation, its row count, and its
/// first `limit` rows.
#[derive(Debug)]
pub struct ResultPlan {
    pub handle: String,
    pub create_sql: String,
    pub count_sql: String,
    pub head_sql: String,
}

/// The statements that materialise a query as the result table of call `seq`.
pub fn plan_result(seq: u64, select_sql: &str, limit: usize) -> (r: ResultPlan)
    ensures
        r.handle@ == "mcp_result_"@ + decimal(seq as nat),
        r.create_sql@ == "CREATE TEMP TABLE "@ + r.handle@ + " AS "@ + select_sql@,
        r.count_sql@ == "SELECT count(*) FROM "@ + r.handle@,
        r.head_sql@ == "SELECT * FROM "@ + r.handle@ + " LIMIT "@ + decimal(limit as nat),
{
    let mut h: Vec<char> = Vec::new();
    push_str(&mut h, "mcp_result_");
    push_decimal(&mut h, seq);
    let mut c: Vec<char> = Vec::new();
    push_str(&mut c, "CREATE TEMP TABLE ");
    push_all(&mut c, h.as_slice());
    push_str(&mut c, " AS ");
    push_str(&mut c, select_sql);
    let mut n: Vec<char> = Vec::new();
    push_str(&mut n, "SELECT count(*) FROM ");
    push_all(&mut n, h.as_slice());
    let mut d: Vec<char> = Vec::new();
    push_str(&mut d, "SELECT * FROM ");
    push_all(&mut d, h.as_slice());
    push_str(&mut d, " LIMIT ");
    push_decimal(&mut d, limit as u64);
    ResultPlan {
        handle: string_of(h.as_slice()),
        create_sql: string_of(c.as_slice()),
        count_sql: string_of(n.as_slice()),
        head_sql: string_of(d.as_slice()),
    }
}

/// Whether a result of `row_count` rows is cut by the inline `limit` (the
/// count is read as `usize`, as the session reports it).
pub fn is_truncated(row_count: i64, limit: usize) -> (r: bool)
    ensures
        r == ((#[verifier::truncate] (row_count as usize)) > limit),
{
    (#[verifier::truncate] (row_count as usize)) > limit
}

/// Parameters of `describe_dataset`.
#[derive(Debug)]
pub struct DescribeDatasetParams {
    /// Zarr dataset/array URI (local path or remote object-store URL).
    pub uri: String,
}

/// Parameters of `zonal_stats`.
#[derive(Debug)]
pub struct ZonalStatsParams {
    /// Zarr grid URI to aggregate.
    pub grid_uri: String,
    /// Path to a vector polygon file readable by `ST_Read`.
    pub polygons: String,
    /// Aggregate: one of `max`, `min`, `mean`, `sum`, `count`.
    pub metric: String,
    /// Cell-inclusion convention: `centroid`, `all_touched` or `area_weighted`.
    pub convention: String,
    /// Value column to aggregate (defaults to `value`).
    pub value_col: Option<String>,
    /// Max rows to inline in the response.
    pub limit: Option<usize>,
}

/// Parameters of `describe_table`.
#[derive(Debug)]
pub struct DescribeTableParams {
    /// Table/handle name (alphanumeric and underscore).
    pub name: String,
}

/// Parameters of `run_sql`.
#[derive(Debug)]
pub struct RunSqlParams {
    /// A single read-only statement.
    pub sql: String,
    /// Max rows to inline in the response.
    pub limit: Option<usize>,
}

} // verus!
