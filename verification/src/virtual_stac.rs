//! Virtual Zarr groups over STAC items: the group over the COG assets of one
//! item, and the time stack of one COG asset across the items of a
//! collection. Their consolidated metadata, and where each store key leads.

use vstd::prelude::*;
use crate::cog::{CogMetadata, CogMetaView};
use crate::json::{JsonObject, canonical_json, json_canonical, json_string, push_json_string, members_text, with_member};
use crate::text::{chars_of, eq_str, find_char, parse_usize, push_all, push_decimal, push_str, slice_to_vec_chars, string_of, decimal, first_index, views, unsigned_text};
use crate::stac::sort_names;
use crate::text::{lemma_first_index_at, lemma_decimal_digits, lemma_decimal_roundtrip};

verus! {

/// `.zarray` of a one-dimensional `<f8` coordinate array of `len` values.
pub open spec fn coord_zarray_text(len: nat) -> Seq<char> {
    "{\"zarr_format\":2,\"shape\":["@ + decimal(len) + "],\"chunks\":["@ + decimal(len)
        + "],\"dtype\":\"<f8\",\"compressor\":null,\"fill_value\":0.0,\"filters\":null,\"order\":\"C\"}"@
}

/// `.zarray` of a one-dimensional `<f8` coordinate array of `len` values, in one chunk.
pub fn coord_zarray(len: usize) -> (r: String)
    ensures
        r@ == coord_zarray_text(len as nat),
{
    let mut v: Vec<char> = Vec::new();
    push_str(&mut v, "{\"zarr_format\":2,\"shape\":[");
    push_decimal(&mut v, len as u64);
    push_str(&mut v, "],\"chunks\":[");
    push_decimal(&mut v, len as u64);
    push_str(&mut v, "],\"dtype\":\"<f8\",\"compressor\":null,\"fill_value\":0.0,\"filters\":null,\"order\":\"C\"}");
    string_of(v.as_slice())
}

/// `{:?}` of an optional CRS code as `CogMetadata::crs` gives it.
pub open spec fn crs_debug(e: Option<u32>) -> Seq<char> {
    match e {
        Some(c) => "Some(\"EPSG:"@ + decimal(c as nat) + "\")"@,
        None => "None"@,
    }
}

/// Why item `i` (with metadata `m`) does not share the grid of item 0 (with
/// metadata `f`); `same_affine` tells whether its affine transform equals
/// item 0's.
pub open spec fn grid_mismatch(f: CogMetaView, m: CogMetaView, i: nat, same_affine: bool) -> Option<Seq<char>> {
    let item = "item "@ + decimal(i);
    if m.image_width != f.image_width || m.image_length != f.image_length {
        Some(item + ": shape "@ + decimal(m.image_length as nat) + "x"@ + decimal(m.image_width as nat) + " != "@
            + decimal(f.image_length as nat) + "x"@ + decimal(f.image_width as nat))
    } else if m.tile_width != f.tile_width || m.tile_length != f.tile_length {
        Some(item + ": tile shape differs"@)
    } else if m.epsg != f.epsg {
        Some(item + ": CRS "@ + crs_debug(m.epsg) + " != "@ + crs_debug(f.epsg))
    } else if !same_affine {
        Some(item + ": affine transform differs"@)
    } else {
        None
    }
}

fn push_crs_debug(out: &mut Vec<char>, e: Option<u32>)
    ensures
        final(out)@ == old(out)@ + crs_debug(e),
{
    match e {
        Some(c) => {
            push_str(out, "Some(\"EPSG:");
            push_decimal(out, c as u64);
            push_str(out, "\")");
        },
        None => push_str(out, "None"),
    }
}

/// Check that every COG of a time stack shares item 0's grid: image shape,
/// tile shape, CRS and affine transform (`same_affine[i]`: item `i`'s
/// transform equals item 0's). Fails at the first item that differs, naming
/// the first property that does.
pub fn validate_grid_uniform(metas: &[&CogMetadata], same_affine: &[bool]) -> (r: Result<(), String>)
    requires
        same_affine@.len() == metas@.len(),
    ensures
        r is Ok <==> forall|i: int| 1 <= i < metas@.len() ==> grid_mismatch(metas@[0]@, (#[trigger] metas@[i])@, i as nat, same_affine@[i]) is None,
        r matches Err(e) ==> exists|i: int| 1 <= i < metas@.len()
            && grid_mismatch(metas@[0]@, (#[trigger] metas@[i])@, i as nat, same_affine@[i]) == Some(e@)
            && forall|j: int| 1 <= j < i ==> grid_mismatch(metas@[0]@, (#[trigger] metas@[j])@, j as nat, same_affine@[j]) is None,
{
    let n = metas.len();
    if n == 0 {
        return Ok(());
    }
    let f = metas[0];
    let mut i: usize = 1;
    while i < n
        invariant
            n == metas@.len(),
            n == same_affine@.len(),
            1 <= i <= n,
            f == metas@[0],
            forall|j: int| 1 <= j < i ==> grid_mismatch(metas@[0]@, (#[trigger] metas@[j])@, j as nat, same_affine@[j]) is None,
        decreases n - i,
    {
        let m = metas[i];
        let mut msg: Vec<char> = Vec::new();
        push_str(&mut msg, "item ");
        push_decimal(&mut msg, i as u64);
        if m.image_width != f.image_width || m.image_length != f.image_length {
            push_str(&mut msg, ": shape ");
            push_decimal(&mut msg, m.image_length as u64);
            push_str(&mut msg, "x");
            push_decimal(&mut msg, m.image_width as u64);
            push_str(&mut msg, " != ");
            push_decimal(&mut msg, f.image_length as u64);
            push_str(&mut msg, "x");
            push_decimal(&mut msg, f.image_width as u64);
            assert(grid_mismatch(metas@[0]@, metas@[i as int]@, i as nat, same_affine@[i as int]) == Some(msg@));
            return Err(string_of(msg.as_slice()));
        }
        if m.tile_width != f.tile_width || m.tile_length != f.tile_length {
            push_str(&mut msg, ": tile shape differs");
            assert(grid_mismatch(metas@[0]@, metas@[i as int]@, i as nat, same_affine@[i as int]) == Some(msg@));
            return Err(string_of(msg.as_slice()));
        }
        if m.epsg != f.epsg {
            push_str(&mut msg, ": CRS ");
            push_crs_debug(&mut msg, m.epsg);
            push_str(&mut msg, " != ");
            push_crs_debug(&mut msg, f.epsg);
            assert(grid_mismatch(metas@[0]@, metas@[i as int]@, i as nat, same_affine@[i as int]) == Some(msg@));
            return Err(string_of(msg.as_slice()));
        }
        if !same_affine[i] {
            push_str(&mut msg, ": affine transform differs");
            assert(grid_mismatch(metas@[0]@, metas@[i as int]@, i as nat, same_affine@[i as int]) == Some(msg@));
            return Err(string_of(msg.as_slice()));
        }
        i = i + 1;
    }
    Ok(())
}

/// `.zgroup` of a virtual group.
pub open spec fn zgroup_text() -> Seq<char> {
    "{\"zarr_format\": 2}"@
}

/// Consolidated `.zmetadata` around the member list of its `metadata` object.
pub open spec fn consolidated_text(members: Seq<(Seq<char>, Seq<char>)>) -> Seq<char> {
    "{\"metadata\":{"@ + members_text(members) + "},\"zarr_consolidated_format\":1}"@
}

/// The `.zgroup` member every consolidated group starts with.
pub open spec fn group_start() -> Seq<(Seq<char>, Seq<char>)> {
    with_member(Seq::empty(), ".zgroup"@, "{\"zarr_format\":2}"@)
}

fn start_object() -> (o: JsonObject)
    ensures
        o.wf(),
        o.members() == group_start(),
{
    let mut o = JsonObject::new();
    o.insert(String::from_str(".zgroup"), String::from_str("{\"zarr_format\":2}"));
    o
}

fn consolidate(o: &JsonObject) -> (r: String)
    requires
        o.wf(),
    ensures
        r@ == consolidated_text(o.members()),
{
    let body = o.to_json();
    let mut v: Vec<char> = Vec::new();
    push_str(&mut v, "{\"metadata\":");
    push_str(&mut v, body.as_str());
    push_str(&mut v, ",\"zarr_consolidated_format\":1}");
    proof {
        reveal_strlit("{\"metadata\":");
        reveal_strlit(",\"zarr_consolidated_format\":1}");
        reveal_strlit("{\"metadata\":{");
        reveal_strlit("},\"zarr_consolidated_format\":1}");
    }
    assert(v@ =~= consolidated_text(o.members()));
    string_of(v.as_slice())
}

/// `name + suffix`.
fn joined(name: &str, suffix: &str) -> (r: String)
    ensures
        r@ == name@ + suffix@,
{
    let mut v = chars_of(name);
    push_str(&mut v, suffix);
    string_of(v.as_slice())
}

/// Members of the consolidated metadata of the group over one item's COG
/// assets: each child's `.zarray` and `.zattrs` as `serde_json` rewrites them
/// (children whose documents do not read are left out).
pub open spec fn group_members(ch: Seq<(String, String, String)>) -> Seq<(Seq<char>, Seq<char>)>
    decreases ch.len(),
{
    if ch.len() == 0 {
        group_start()
    } else {
        let prev = group_members(ch.drop_last());
        let c = ch.last();
        let a = match json_canonical(c.1@) {
            Ok(v) => with_member(prev, c.0@ + "/.zarray"@, v),
            Err(_) => prev,
        };
        match json_canonical(c.2@) {
            Ok(v) => with_member(a, c.0@ + "/.zattrs"@, v),
            Err(_) => a,
        }
    }
}

/// Index of the first name equal to `name`.
pub open spec fn name_index(names: Seq<Seq<char>>, name: Seq<char>) -> Option<int> {
    if names.contains(name) {
        Some(choose|i: int| 0 <= i < names.len() && names[i] == name && forall|j: int| 0 <= j < i ==> names[j] != name)
    } else {
        None
    }
}

fn find_name(names: &Vec<String>, name: &[char]) -> (r: Option<usize>)
    ensures
        r is None <==> name_index(views(names@), name@) is None,
        r matches Some(i) ==> name_index(views(names@), name@) == Some(i as int) && i < names@.len(),
{
    let n = names.len();
    let mut i: usize = 0;
    while i < n
        invariant
            n == names@.len(),
            i <= n,
            forall|j: int| 0 <= j < i ==> views(names@)[j] != name@,
        decreases n - i,
    {
        if eq_str(name, names[i].as_str()) {
            let ghost vs = views(names@);
            assert(vs[i as int] == name@);
            assert(vs.contains(name@));
            let ghost w = choose|k: int| 0 <= k < vs.len() && vs[k] == name@ && forall|j: int| 0 <= j < k ==> vs[j] != name@;
            assert(0 <= w < vs.len() && vs[w] == name@ && forall|j: int| 0 <= j < w ==> vs[j] != name@);
            assert(w == i) by {
                if w < i {
                    assert(vs[w] != name@);
                } else if w > i {
                    assert(vs[i as int] != name@);
                }
            }
            return Some(i);
        }
        i = i + 1;
    }
    assert(!views(names@).contains(name@)) by {
        if views(names@).contains(name@) {
            let k = choose|k: int| 0 <= k < views(names@).len() && views(names@)[k] == name@;
            assert(views(names@)[k] != name@);
        }
    }
    None
}

/// Where a key of a group over an item's COG assets leads.
#[derive(Debug)]
pub enum GroupRead {
    ZGroup,
    ZMetadata,
    /// Key `subkey` of the child at this index.
    Child(usize, String),
    Missing,
}

/// [`GroupRead`] over plain values.
pub enum GroupRoute {
    ZGroup,
    ZMetadata,
    Child(usize, Seq<char>),
    Missing,
}

pub open spec fn group_read_view(r: GroupRead) -> GroupRoute {
    match r {
        GroupRead::ZGroup => GroupRoute::ZGroup,
        GroupRead::ZMetadata => GroupRoute::ZMetadata,
        GroupRead::Child(i, k) => GroupRoute::Child(i, k@),
        GroupRead::Missing => GroupRoute::Missing,
    }
}

/// `.zgroup` and `.zmetadata` are the group's own; `name/rest` is key `rest`
/// of child `name` (split at the first `/`); anything else is missing.
pub open spec fn group_route(names: Seq<Seq<char>>, key: Seq<char>) -> GroupRoute {
    if key == ".zgroup"@ {
        GroupRoute::ZGroup
    } else if key == ".zmetadata"@ {
        GroupRoute::ZMetadata
    } else {
        match first_index(key, '/') {
            Some(i) => match name_index(names, key.take(i)) {
                Some(c) => GroupRoute::Child(c as usize, key.skip(i + 1)),
                None => GroupRoute::Missing,
            },
            None => GroupRoute::Missing,
        }
    }
}

/// A Zarr group over the COG assets of one STAC item: one child array per
/// asset, and the consolidated metadata of all of them.
#[derive(Debug)]
pub struct StacGroupLayout {
    /// Child names, in the order given.
    pub names: Vec<String>,
    pub zgroup: String,
    pub zmetadata: String,
}

impl StacGroupLayout {
    /// Build the group over `children`: `(name, .zarray text, .zattrs text)`.
    pub fn new(children: &Vec<(String, String, String)>) -> (r: StacGroupLayout)
        ensures
            r.names@.len() == children@.len(),
            forall|i: int| 0 <= i < children@.len() ==> (#[trigger] r.names@[i])@ == children@[i].0@,
            r.zgroup@ == zgroup_text(),
            r.zmetadata@ == consolidated_text(group_members(children@)),
    {
        let n = children.len();
        let mut obj = start_object();
        let mut names: Vec<String> = Vec::new();
        let mut i: usize = 0;
        assert(children@.take(0) =~= Seq::<(String, String, String)>::empty());
        while i < n
            invariant
                n == children@.len(),
                i <= n,
                obj.wf(),
                obj.members() == group_members(children@.take(i as int)),
                names@.len() == i,
                forall|j: int| 0 <= j < i ==> (#[trigger] names@[j])@ == children@[j].0@,
            decreases n - i,
        {
            assert(children@.take(i + 1).drop_last() =~= children@.take(i as int));
            assert(children@.take(i + 1).last() == children@[i as int]);
            let c = &children[i];
            match canonical_json(c.1.as_str()) {
                Ok(v) => obj.insert(joined(c.0.as_str(), "/.zarray"), v),
                Err(_) => {},
            }
            match canonical_json(c.2.as_str()) {
                Ok(v) => obj.insert(joined(c.0.as_str(), "/.zattrs"), v),
                Err(_) => {},
            }
            names.push(c.0.clone());
            i = i + 1;
        }
        assert(children@.take(n as int) =~= children@);
        let zmetadata = consolidate(&obj);
        proof {
            reveal_strlit("{\"zarr_format\": 2}");
        }
        StacGroupLayout { names, zgroup: String::from_str("{\"zarr_format\": 2}"), zmetadata }
    }

    /// Names of the group's assets, sorted.
    pub fn asset_names(&self) -> (r: Vec<String>)
        ensures
            crate::stac::names_sorted(views(r@)),
            views(r@).to_multiset() == views(self.names@).to_multiset(),
    {
        sort_names(self.names.clone())
    }

    /// Where key `key` leads.
    pub fn locate(&self, key: &str) -> (r: GroupRead)
        ensures
            group_read_view(r) == group_route(views(self.names@), key@),
    {
        let k = chars_of(key);
        let ks = k.as_slice();
        if eq_str(ks, ".zgroup") {
            return GroupRead::ZGroup;
        }
        if eq_str(ks, ".zmetadata") {
            return GroupRead::ZMetadata;
        }
        let kn = ks.len();
        match find_char(ks, '/') {
            Some(i) => {
                assert(i < kn);
                let name = slice_to_vec_chars(ks, 0, i);
                assert(name@ =~= key@.take(i as int));
                match find_name(&self.names, name.as_slice()) {
                    Some(c) => {
                        let sub = slice_to_vec_chars(ks, i + 1, kn);
                        assert(sub@ =~= key@.skip(i + 1));
                        GroupRead::Child(c, string_of(sub.as_slice()))
                    },
                    None => GroupRead::Missing,
                }
            },
            None => GroupRead::Missing,
        }
    }
}

/// One COG asset of a time stack: its name, the number of items it was found
/// on, and what its first item's `.zarray` declares: dtype, fill value (as
/// JSON text) and the first two chunk extents.
#[derive(Debug)]
pub struct StackAsset {
    pub name: String,
    pub items: usize,
    pub dtype: String,
    pub fill: String,
    pub tile: (u64, u64),
}

/// The `.zarray` of an asset stacked over `n` times on an `h` x `w` grid,
/// before `serde_json` rewrites it: the first item's document with shape
/// `[n, h, w]` and chunks `[1, tile]`.
pub open spec fn stack_zarray_text(a: StackAsset, n: nat, h: nat, w: nat) -> Seq<char> {
    "{\"zarr_format\":2,\"shape\":["@ + decimal(n) + ","@ + decimal(h) + ","@ + decimal(w) + "],\"chunks\":[1,"@
        + decimal(a.tile.0 as nat) + ","@ + decimal(a.tile.1 as nat) + "],\"dtype\":"@ + json_string(a.dtype@)
        + ",\"compressor\":null,\"fill_value\":"@ + a.fill@ + ",\"filters\":null,\"order\":\"C\"}"@
}

/// The `.zattrs` of a stacked asset, before `serde_json` rewrites it.
pub open spec fn stack_zattrs_text(d0: Seq<char>, d1: Seq<char>) -> Seq<char> {
    "{\"_ARRAY_DIMENSIONS\":[\"time\","@ + json_string(d0) + ","@ + json_string(d1) + "]}"@
}

/// Documents of the first `a.len()` assets and the consolidated members so
/// far, or the first failure: an asset found on other than `n` items, or a
/// document `serde_json` does not read.
pub open spec fn stack_assets(a: Seq<StackAsset>, n: usize, h: usize, w: usize, d0: Seq<char>, d1: Seq<char>) -> Result<
    (Seq<Seq<char>>, Seq<Seq<char>>, Seq<(Seq<char>, Seq<char>)>),
    Seq<char>,
>
    decreases a.len(),
{
    if a.len() == 0 {
        Ok((Seq::empty(), Seq::empty(), group_start()))
    } else {
        match stack_assets(a.drop_last(), n, h, w, d0, d1) {
            Err(e) => Err(e),
            Ok((za, zt, m)) => {
                let x = a.last();
                if x.items != n {
                    Err("asset "@ + x.name@ + ": "@ + decimal(x.items as nat) + " items, expected "@ + decimal(n as nat))
                } else {
                    match json_canonical(stack_zarray_text(x, n as nat, h as nat, w as nat)) {
                        Err(e) => Err(e),
                        Ok(z) => match json_canonical(stack_zattrs_text(d0, d1)) {
                            Err(e) => Err(e),
                            Ok(t) => Ok(
                                (
                                    za.push(z),
                                    zt.push(t),
                                    with_member(with_member(m, x.name@ + "/.zarray"@, z), x.name@ + "/.zattrs"@, t),
                                ),
                            ),
                        },
                    }
                }
            },
        }
    }
}

/// Coordinate arrays of a time stack: `time` of length `n`, then the two
/// spatial dimensions of lengths `h` and `w`.
pub open spec fn coord_names_of(d0: Seq<char>, d1: Seq<char>) -> Seq<Seq<char>> {
    seq!["time"@, d0, d1]
}

/// The consolidated members once the coordinate arrays are added, or the
/// `serde_json` message for a coordinate document it does not read.
pub open spec fn with_coords(m: Seq<(Seq<char>, Seq<char>)>, names: Seq<Seq<char>>, lens: Seq<usize>) -> Result<Seq<(Seq<char>, Seq<char>)>, Seq<char>>
    decreases names.len(),
{
    if names.len() == 0 || lens.len() != names.len() {
        Ok(m)
    } else {
        match with_coords(m, names.drop_last(), lens.drop_last()) {
            Err(e) => Err(e),
            Ok(m2) => match json_canonical(coord_zarray_text(lens.last() as nat)) {
                Err(e) => Err(e),
                Ok(z) => Ok(with_member(m2, names.last() + "/.zarray"@, z)),
            },
        }
    }
}

/// Where a key of a time stack leads.
#[derive(Debug)]
pub enum StackRead {
    ZGroup,
    ZMetadata,
    /// `.zarray` of the coordinate array at this index.
    CoordZarray(usize),
    /// The single chunk of the coordinate array at this index.
    CoordData(usize),
    AssetZarray(usize),
    AssetZattrs(usize),
    /// Key of the tile in the COG of an asset at a time position.
    Chunk(usize, usize, String),
    Missing,
}

/// [`StackRead`] over plain values.
pub enum StackRoute {
    ZGroup,
    ZMetadata,
    CoordZarray(usize),
    CoordData(usize),
    AssetZarray(usize),
    AssetZattrs(usize),
    Chunk(usize, usize, Seq<char>),
    Missing,
}

pub open spec fn stack_read_view(r: StackRead) -> StackRoute {
    match r {
        StackRead::ZGroup => StackRoute::ZGroup,
        StackRead::ZMetadata => StackRoute::ZMetadata,
        StackRead::CoordZarray(i) => StackRoute::CoordZarray(i),
        StackRead::CoordData(i) => StackRoute::CoordData(i),
        StackRead::AssetZarray(i) => StackRoute::AssetZarray(i),
        StackRead::AssetZattrs(i) => StackRoute::AssetZattrs(i),
        StackRead::Chunk(a, t, k) => StackRoute::Chunk(a, t, k@),
        StackRead::Missing => StackRoute::Missing,
    }
}

/// Index of the last name equal to `name`: a later coordinate array replaces
/// an earlier one of the same name.
pub open spec fn last_name_index(names: Seq<Seq<char>>, name: Seq<char>) -> Option<int> {
    if names.contains(name) {
        Some(choose|i: int| 0 <= i < names.len() && names[i] == name && forall|j: int| i < j < names.len() ==> names[j] != name)
    } else {
        None
    }
}

/// Where `name/sub` leads in a time stack: a coordinate array's `.zarray` or
/// chunk `0`, an asset's `.zarray` or `.zattrs`, or the tile key `y.x` of
/// asset `name` at time `t` for `sub == t.y.x`.
pub open spec fn stack_sub_route(coords: Seq<Seq<char>>, names: Seq<Seq<char>>, items: Seq<usize>, name: Seq<char>, sub: Seq<char>) -> StackRoute {
    let c = last_name_index(coords, name);
    let a = name_index(names, name);
    if c is Some && sub == ".zarray"@ {
        StackRoute::CoordZarray(c.unwrap() as usize)
    } else if c is Some && sub == "0"@ {
        StackRoute::CoordData(c.unwrap() as usize)
    } else if a is Some && sub == ".zarray"@ {
        StackRoute::AssetZarray(a.unwrap() as usize)
    } else if a is Some && sub == ".zattrs"@ {
        StackRoute::AssetZattrs(a.unwrap() as usize)
    } else if a is Some {
        match first_index(sub, '.') {
            Some(d) => match unsigned_text(sub.take(d)) {
                Some(t) => if t < items[a.unwrap()] {
                    StackRoute::Chunk(a.unwrap() as usize, t as usize, sub.skip(d + 1))
                } else {
                    StackRoute::Missing
                },
                None => StackRoute::Missing,
            },
            None => StackRoute::Missing,
        }
    } else {
        StackRoute::Missing
    }
}

pub open spec fn stack_route(coords: Seq<Seq<char>>, names: Seq<Seq<char>>, items: Seq<usize>, key: Seq<char>) -> StackRoute {
    if key == ".zgroup"@ {
        StackRoute::ZGroup
    } else if key == ".zmetadata"@ {
        StackRoute::ZMetadata
    } else {
        match first_index(key, '/') {
            Some(i) => stack_sub_route(coords, names, items, key.take(i), key.skip(i + 1)),
            None => StackRoute::Missing,
        }
    }
}

/// A Zarr group stacking COG assets over the items of a collection along
/// time: per asset a `[time, y, x]` array whose chunk `t.y.x` is tile `y.x`
/// of the asset's COG at time `t`, plus the coordinate arrays.
#[derive(Debug)]
pub struct TimeStackLayout {
    pub names: Vec<String>,
    pub items: Vec<usize>,
    pub asset_zarray: Vec<String>,
    pub asset_zattrs: Vec<String>,
    pub coord_names: Vec<String>,
    pub coord_zarray: Vec<String>,
    pub zgroup: String,
    pub zmetadata: String,
}

fn stack_zarray(a: &StackAsset, n: usize, h: usize, w: usize) -> (r: String)
    ensures
        r@ == stack_zarray_text(*a, n as nat, h as nat, w as nat),
{
    let mut v: Vec<char> = Vec::new();
    push_str(&mut v, "{\"zarr_format\":2,\"shape\":[");
    push_decimal(&mut v, n as u64);
    push_str(&mut v, ",");
    push_decimal(&mut v, h as u64);
    push_str(&mut v, ",");
    push_decimal(&mut v, w as u64);
    push_str(&mut v, "],\"chunks\":[1,");
    push_decimal(&mut v, a.tile.0);
    push_str(&mut v, ",");
    push_decimal(&mut v, a.tile.1);
    push_str(&mut v, "],\"dtype\":");
    push_json_string(&mut v, a.dtype.as_str());
    push_str(&mut v, ",\"compressor\":null,\"fill_value\":");
    push_str(&mut v, a.fill.as_str());
    push_str(&mut v, ",\"filters\":null,\"order\":\"C\"}");
    string_of(v.as_slice())
}

fn stack_zattrs(d0: &str, d1: &str) -> (r: String)
    ensures
        r@ == stack_zattrs_text(d0@, d1@),
{
    let mut v: Vec<char> = Vec::new();
    push_str(&mut v, "{\"_ARRAY_DIMENSIONS\":[\"time\",");
    push_json_string(&mut v, d0);
    push_str(&mut v, ",");
    push_json_string(&mut v, d1);
    push_str(&mut v, "]}");
    string_of(v.as_slice())
}

impl TimeStackLayout {
    /// Build the stack of `assets` over `n` times on an `h` x `w` grid whose
    /// spatial dimensions are named `dims`. Fails without assets, at the
    /// first asset found on other than `n` items, or where `serde_json` does
    /// not read a synthesized document.
    pub fn new(assets: &Vec<StackAsset>, n: usize, h: usize, w: usize, dims: (String, String)) -> (r: Result<TimeStackLayout, String>)
        ensures
            assets@.len() == 0 ==> (r matches Err(e) && e@ == "time-stack has no assets"@),
            assets@.len() > 0 ==> match stack_assets(assets@, n, h, w, dims.0@, dims.1@) {
                Err(e) => r matches Err(m) && m@ == e,
                Ok((za, zt, m)) => match with_coords(m, coord_names_of(dims.0@, dims.1@), seq![n, h, w]) {
                    Err(e) => r matches Err(m2) && m2@ == e,
                    Ok(m2) => r matches Ok(l) && views(l.names@) == assets@.map_values(|a: StackAsset| a.name@)
                        && l.items@ == assets@.map_values(|a: StackAsset| a.items)
                        && views(l.asset_zarray@) == za && views(l.asset_zattrs@) == zt
                        && views(l.coord_names@) == coord_names_of(dims.0@, dims.1@)
                        && l.coord_zarray@.len() == 3
                        && l.coord_zarray@[0]@ == coord_zarray_text(n as nat)
                        && l.coord_zarray@[1]@ == coord_zarray_text(h as nat)
                        && l.coord_zarray@[2]@ == coord_zarray_text(w as nat)
                        && l.zgroup@ == zgroup_text()
                        && l.zmetadata@ == consolidated_text(m2),
                },
            },
    {
        proof {
            reveal_strlit("time-stack has no assets");
        }
        let na = assets.len();
        if na == 0 {
            return Err(String::from_str("time-stack has no assets"));
        }
        let mut obj = start_object();
        let mut names: Vec<String> = Vec::new();
        let mut items: Vec<usize> = Vec::new();
        let mut zas: Vec<String> = Vec::new();
        let mut zts: Vec<String> = Vec::new();
        let mut i: usize = 0;
        assert(assets@.take(0) =~= Seq::<StackAsset>::empty());
        assert(views(zas@) =~= Seq::<Seq<char>>::empty());
        assert(views(zts@) =~= Seq::<Seq<char>>::empty());
        while i < na
            invariant
                na == assets@.len(),
                i <= na,
                obj.wf(),
                stack_assets(assets@.take(i as int), n, h, w, dims.0@, dims.1@) == Ok::<
                    (Seq<Seq<char>>, Seq<Seq<char>>, Seq<(Seq<char>, Seq<char>)>),
                    Seq<char>,
                >((views(zas@), views(zts@), obj.members())),
                names@.len() == i,
                items@.len() == i,
                forall|j: int| 0 <= j < i ==> (#[trigger] names@[j])@ == assets@[j].name@,
                forall|j: int| 0 <= j < i ==> #[trigger] items@[j] == assets@[j].items,
            decreases na - i,
        {
            assert(assets@.take(i + 1).drop_last() =~= assets@.take(i as int));
            assert(assets@.take(i + 1).last() == assets@[i as int]);
            let a = &assets[i];
            if a.items != n {
                let mut m: Vec<char> = Vec::new();
                push_str(&mut m, "asset ");
                push_str(&mut m, a.name.as_str());
                push_str(&mut m, ": ");
                push_decimal(&mut m, a.items as u64);
                push_str(&mut m, " items, expected ");
                push_decimal(&mut m, n as u64);
                proof {
                    lemma_stack_prefix_err(assets@, (i + 1) as int, n, h, w, dims.0@, dims.1@);
                }
                return Err(string_of(m.as_slice()));
            }
            let z = match canonical_json(stack_zarray(a, n, h, w).as_str()) {
                Ok(z) => z,
                Err(e) => {
                    proof {
                        lemma_stack_prefix_err(assets@, (i + 1) as int, n, h, w, dims.0@, dims.1@);
                    }
                    return Err(e);
                },
            };
            let t = match canonical_json(stack_zattrs(dims.0.as_str(), dims.1.as_str()).as_str()) {
                Ok(t) => t,
                Err(e) => {
                    proof {
                        lemma_stack_prefix_err(assets@, (i + 1) as int, n, h, w, dims.0@, dims.1@);
                    }
                    return Err(e);
                },
            };
            let ghost m_before = obj.members();
            obj.insert(joined(a.name.as_str(), "/.zarray"), z.clone());
            obj.insert(joined(a.name.as_str(), "/.zattrs"), t.clone());
            assert(obj.members() == with_member(with_member(m_before, a.name@ + "/.zarray"@, z@), a.name@ + "/.zattrs"@, t@));
            assert(json_canonical(stack_zarray_text(assets@[i as int], n as nat, h as nat, w as nat)) == Ok::<Seq<char>, Seq<char>>(z@));
            assert(json_canonical(stack_zattrs_text(dims.0@, dims.1@)) == Ok::<Seq<char>, Seq<char>>(t@));
            let ghost za_before = views(zas@);
            let ghost zt_before = views(zts@);
            let ghost zv = z@;
            let ghost tv = t@;
            zas.push(z);
            zts.push(t);
            names.push(a.name.clone());
            items.push(a.items);
            assert(views(zas@) =~= za_before.push(zv));
            assert(views(zts@) =~= zt_before.push(tv));
            assert(stack_assets(assets@.take(i + 1), n, h, w, dims.0@, dims.1@) == Ok::<
                    (Seq<Seq<char>>, Seq<Seq<char>>, Seq<(Seq<char>, Seq<char>)>),
                    Seq<char>,
                >((views(zas@), views(zts@), obj.members())));
            i = i + 1;
        }
        assert(assets@.take(na as int) =~= assets@);
        assert(views(names@) =~= assets@.map_values(|a: StackAsset| a.name@));
        assert(items@ =~= assets@.map_values(|a: StackAsset| a.items));
        let cn: Vec<String> = vec![String::from_str("time"), dims.0.clone(), dims.1.clone()];
        let lens: Vec<usize> = vec![n, h, w];
        let mut cz: Vec<String> = Vec::new();
        let mut c: usize = 0;
        proof {
            reveal_strlit("time");
        }
        assert(views(cn@) =~= coord_names_of(dims.0@, dims.1@));
        assert(lens@ =~= seq![n, h, w]);
        assert(views(cn@).take(0) =~= Seq::<Seq<char>>::empty());
        let ghost m0 = obj.members();
        while c < 3
            invariant
                na == assets@.len(),
                na > 0,
                stack_assets(assets@, n, h, w, dims.0@, dims.1@) == Ok::<
                    (Seq<Seq<char>>, Seq<Seq<char>>, Seq<(Seq<char>, Seq<char>)>),
                    Seq<char>,
                >((views(zas@), views(zts@), m0)),
                cn@.len() == 3,
                lens@.len() == 3,
                views(cn@) == coord_names_of(dims.0@, dims.1@),
                lens@ == seq![n, h, w],
                c <= 3,
                obj.wf(),
                with_coords(m0, views(cn@).take(c as int), lens@.take(c as int)) == Ok::<Seq<(Seq<char>, Seq<char>)>, Seq<char>>(obj.members()),
                cz@.len() == c,
                forall|j: int| 0 <= j < c ==> (#[trigger] cz@[j])@ == coord_zarray_text(lens@[j] as nat),
            decreases 3 - c,
        {
            assert(views(cn@).take(c + 1).drop_last() =~= views(cn@).take(c as int));
            assert(lens@.take(c + 1).drop_last() =~= lens@.take(c as int));
            let za = coord_zarray(lens[c]);
            match canonical_json(za.as_str()) {
                Ok(z) => {
                    obj.insert(joined(cn[c].as_str(), "/.zarray"), z);
                },
                Err(e) => {
                    proof {
                        lemma_coords_prefix_err(m0, views(cn@), lens@, (c + 1) as int);
                        assert(views(cn@).take(3) =~= views(cn@));
                        assert(lens@.take(3) =~= lens@);
                    }
                    return Err(e);
                },
            }
            cz.push(za);
            c = c + 1;
        }
        assert(views(cn@).take(3) =~= views(cn@));
        assert(lens@.take(3) =~= lens@);
        let zmetadata = consolidate(&obj);
        proof {
            reveal_strlit("{\"zarr_format\": 2}");
        }
        Ok(TimeStackLayout {
            names,
            items,
            asset_zarray: zas,
            asset_zattrs: zts,
            coord_names: cn,
            coord_zarray: cz,
            zgroup: String::from_str("{\"zarr_format\": 2}"),
            zmetadata,
        })
    }

    /// Names of the stacked assets, sorted.
    pub fn asset_names(&self) -> (r: Vec<String>)
        ensures
            crate::stac::names_sorted(views(r@)),
            views(r@).to_multiset() == views(self.names@).to_multiset(),
    {
        sort_names(self.names.clone())
    }

    /// Where key `key` leads.
    pub fn locate(&self, key: &str) -> (r: StackRead)
        requires
            self.items@.len() == self.names@.len(),
        ensures
            stack_read_view(r) == stack_route(views(self.coord_names@), views(self.names@), self.items@, key@),
    {
        let k = chars_of(key);
        let ks = k.as_slice();
        if eq_str(ks, ".zgroup") {
            return StackRead::ZGroup;
        }
        if eq_str(ks, ".zmetadata") {
            return StackRead::ZMetadata;
        }
        let kn = ks.len();
        let i = match find_char(ks, '/') {
            Some(i) => i,
            None => return StackRead::Missing,
        };
        assert(i < kn);
        let name = slice_to_vec_chars(ks, 0, i);
        let sub = slice_to_vec_chars(ks, i + 1, kn);
        assert(name@ =~= key@.take(i as int));
        assert(sub@ =~= key@.skip(i + 1));
        let subs = sub.as_slice();
        let c = find_last_name(&self.coord_names, name.as_slice());
        let a = find_name(&self.names, name.as_slice());
        proof {
            reveal_strlit(".zarray");
            reveal_strlit(".zattrs");
            reveal_strlit("0");
        }
        match c {
            Some(ci) => {
                if eq_str(subs, ".zarray") {
                    return StackRead::CoordZarray(ci);
                }
                if eq_str(subs, "0") {
                    return StackRead::CoordData(ci);
                }
            },
            None => {},
        }
        let ai = match a {
            Some(ai) => ai,
            None => return StackRead::Missing,
        };
        if eq_str(subs, ".zarray") {
            return StackRead::AssetZarray(ai);
        }
        if eq_str(subs, ".zattrs") {
            return StackRead::AssetZattrs(ai);
        }
        let sn = subs.len();
        let d = match find_char(subs, '.') {
            Some(d) => d,
            None => return StackRead::Missing,
        };
        assert(d < sn);
        let t_text = slice_to_vec_chars(subs, 0, d);
        let yx = slice_to_vec_chars(subs, d + 1, sn);
        assert(t_text@ =~= sub@.take(d as int));
        assert(yx@ =~= sub@.skip(d + 1));
        match parse_usize(t_text.as_slice()) {
            Some(t) => {
                if t < self.items[ai] {
                    StackRead::Chunk(ai, t, string_of(yx.as_slice()))
                } else {
                    StackRead::Missing
                }
            },
            None => {
                proof {
                    if unsigned_text(t_text@) is Some {
                        assert(unsigned_text(t_text@).unwrap() > usize::MAX);
                    }
                }
                StackRead::Missing
            },
        }
    }
}

fn find_last_name(names: &Vec<String>, name: &[char]) -> (r: Option<usize>)
    ensures
        r is None <==> last_name_index(views(names@), name@) is None,
        r matches Some(i) ==> last_name_index(views(names@), name@) == Some(i as int) && i < names@.len(),
{
    let n = names.len();
    let mut i: usize = n;
    while i > 0
        invariant
            n == names@.len(),
            i <= n,
            forall|j: int| i <= j < n ==> views(names@)[j] != name@,
        decreases i,
    {
        if eq_str(name, names[i - 1].as_str()) {
            let k: usize = i - 1;
            let ghost vs = views(names@);
            assert(vs[k as int] == name@);
            assert(vs.contains(name@));
            let ghost w = choose|m: int| 0 <= m < vs.len() && vs[m] == name@ && forall|j: int| m < j < vs.len() ==> vs[j] != name@;
            assert(0 <= w < vs.len() && vs[w] == name@ && forall|j: int| w < j < vs.len() ==> vs[j] != name@);
            assert(w == k) by {
                if w < k {
                    assert(vs[k as int] != name@);
                } else if w > k {
                    assert(vs[w] != name@);
                }
            }
            return Some(k);
        }
        i = i - 1;
    }
    assert(!views(names@).contains(name@)) by {
        if views(names@).contains(name@) {
            let k = choose|k: int| 0 <= k < views(names@).len() && views(names@)[k] == name@;
            assert(views(names@)[k] != name@);
        }
    }
    None
}

proof fn lemma_stack_prefix_err(a: Seq<StackAsset>, k: int, n: usize, h: usize, w: usize, d0: Seq<char>, d1: Seq<char>)
    requires
        0 <= k <= a.len(),
        stack_assets(a.take(k), n, h, w, d0, d1) is Err,
    ensures
        stack_assets(a, n, h, w, d0, d1) == stack_assets(a.take(k), n, h, w, d0, d1),
    decreases a.len() - k,
{
    if k < a.len() {
        assert(a.take(k + 1).drop_last() =~= a.take(k));
        lemma_stack_prefix_err(a, k + 1, n, h, w, d0, d1);
    } else {
        assert(a.take(k) =~= a);
    }
}

proof fn lemma_coords_prefix_err(m: Seq<(Seq<char>, Seq<char>)>, names: Seq<Seq<char>>, lens: Seq<usize>, k: int)
    requires
        names.len() == lens.len(),
        0 <= k <= names.len(),
        with_coords(m, names.take(k), lens.take(k)) is Err,
    ensures
        with_coords(m, names, lens) == with_coords(m, names.take(k), lens.take(k)),
    decreases names.len() - k,
{
    if k < names.len() {
        assert(names.take(k + 1).drop_last() =~= names.take(k));
        assert(lens.take(k + 1).drop_last() =~= lens.take(k));
        lemma_coords_prefix_err(m, names, lens, k + 1);
    } else {
        assert(names.take(k) =~= names);
        assert(lens.take(k) =~= lens);
    }
}

/// Routing undoes key formation: in a group over an item's assets, key
/// `name/rest` of a child named `name` (without `/`) is key `rest` of that child.
pub proof fn lemma_group_child_key(names: Seq<Seq<char>>, c: int, rest: Seq<char>)
    requires
        0 <= c < names.len(),
        !names[c].contains('/'),
        name_index(names, names[c]) == Some(c),
    ensures
        group_route(names, names[c] + "/"@ + rest) == GroupRoute::Child(c as usize, rest),
{
    reveal_strlit("/");
    reveal_strlit(".zgroup");
    reveal_strlit(".zmetadata");
    let n = names[c];
    let key = n + "/"@ + rest;
    assert forall|j: int| 0 <= j < n.len() implies key[j] != '/' by {
        assert(key[j] == n[j]);
        if n[j] == '/' {
            assert(n.contains('/'));
        }
    }
    lemma_first_index_at(key, '/', n.len() as int);
    assert(key.take(n.len() as int) =~= n);
    assert(key.skip(n.len() as int + 1) =~= rest);
    assert(key != ".zgroup"@ && key != ".zmetadata"@) by {
        if key == ".zgroup"@ {
            assert(".zgroup"@[0] == '.');
        }
        if key.len() == ".zgroup"@.len() && n.len() < key.len() {
            assert(key[n.len() as int] == '/');
        }
    }
}

proof fn lemma_stack_sub_chunk(coords: Seq<Seq<char>>, names: Seq<Seq<char>>, items: Seq<usize>, a: int, t: nat, rest: Seq<char>)
    requires
        0 <= a < names.len(),
        items.len() == names.len(),
        name_index(names, names[a]) == Some(a),
    ensures
        stack_sub_route(coords, names, items, names[a], decimal(t) + "."@ + rest) == if t < items[a] {
            StackRoute::Chunk(a as usize, t as usize, rest)
        } else {
            StackRoute::Missing
        },
{
    reveal_strlit(".");
    reveal_strlit(".zarray");
    reveal_strlit(".zattrs");
    reveal_strlit("0");
    let dt = decimal(t);
    let sub = dt + "."@ + rest;
    lemma_decimal_digits(t);
    lemma_decimal_roundtrip(t);
    assert forall|j: int| 0 <= j < dt.len() implies sub[j] != '.' by {
        assert(sub[j] == dt[j]);
        if dt[j] == '.' {
            assert(dt.contains('.'));
        }
    }
    assert(sub[dt.len() as int] == '.');
    lemma_first_index_at(sub, '.', dt.len() as int);
    assert(sub.take(dt.len() as int) =~= dt);
    assert(sub.skip(dt.len() as int + 1) =~= rest);
    assert(sub != ".zarray"@ && sub != ".zattrs"@) by {
        assert(sub[0] == dt[0]);
        assert(crate::text::is_digit(dt[0]));
        assert(".zarray"@[0] == '.');
        assert(".zattrs"@[0] == '.');
    }
    assert(sub != "0"@) by {
        assert(sub.len() > dt.len());
        assert(dt.len() >= 1);
    }
}

/// Routing undoes key formation: in a time stack, key `name/t.rest` of an
/// asset named `name` (without `/`) found on more than `t` items is key
/// `rest` of the tile of that asset at time `t`; past the last item it is
/// missing.
#[verifier::spinoff_prover]
#[verifier::rlimit(40)]
pub proof fn lemma_stack_chunk_key(coords: Seq<Seq<char>>, names: Seq<Seq<char>>, items: Seq<usize>, a: int, t: nat, rest: Seq<char>)
    requires
        0 <= a < names.len(),
        items.len() == names.len(),
        !names[a].contains('/'),
        name_index(names, names[a]) == Some(a),
    ensures
        stack_route(coords, names, items, names[a] + "/"@ + decimal(t) + "."@ + rest) == if t < items[a] {
            StackRoute::Chunk(a as usize, t as usize, rest)
        } else {
            StackRoute::Missing
        },
{
    reveal_strlit("/");
    let n = names[a];
    let sub = decimal(t) + "."@ + rest;
    let key = n + "/"@ + sub;
    assert(key =~= n + "/"@ + decimal(t) + "."@ + rest);
    assert forall|j: int| 0 <= j < n.len() implies key[j] != '/' by {
        assert(key[j] == n[j]);
        if n[j] == '/' {
            assert(n.contains('/'));
        }
    }
    assert(key[n.len() as int] == '/');
    lemma_first_index_at(key, '/', n.len() as int);
    assert(key.take(n.len() as int) =~= n);
    assert(key.skip(n.len() as int + 1) =~= sub);
    lemma_stack_sub_chunk(coords, names, items, a, t, rest);
    lemma_slash_key_not_meta(key, n.len() as int);
}

proof fn lemma_slash_key_not_meta(key: Seq<char>, i: int)
    requires
        0 <= i < key.len(),
        key[i] == '/',
    ensures
        key != ".zgroup"@,
        key != ".zmetadata"@,
{
    reveal_strlit(".zgroup");
    reveal_strlit(".zmetadata");
    if key == ".zgroup"@ {
        assert(key =~= seq!['.', 'z', 'g', 'r', 'o', 'u', 'p']);
    }
    if key == ".zmetadata"@ {
        assert(key =~= seq!['.', 'z', 'm', 'e', 't', 'a', 'd', 'a', 't', 'a']);
    }
}

} // verus!
