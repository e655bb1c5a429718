//! JSON text as the stores write it: escaped strings, and objects whose
//! members are kept in key order with one value per key.

use vstd::prelude::*;
use crate::text::{push_all, push_str, string_of, chars_of};
use crate::text::eq_str;

verus! {

/// Lower-case hexadecimal digit.
pub open spec fn hex_digit(d: int) -> char {
    if d < 10 {
        ((48 + d) as u32) as char
    } else {
        ((87 + d) as u32) as char
    }
}

/// How a character is written inside a JSON string: quote and backslash are
/// escaped, control characters take their short escape or `\u00XX`, all
/// other characters stand as they are.
pub open spec fn escape_char(c: char) -> Seq<char> {
    if c == '"' {
        seq!['\\', '"']
    } else if c == '\\' {
        seq!['\\', '\\']
    } else if c == '\u{8}' {
        seq!['\\', 'b']
    } else if c == '\t' {
        seq!['\\', 't']
    } else if c == '\n' {
        seq!['\\', 'n']
    } else if c == '\u{c}' {
        seq!['\\', 'f']
    } else if c == '\r' {
        seq!['\\', 'r']
    } else if (c as u32) < 0x20 {
        seq!['\\', 'u', '0', '0', hex_digit(((c as u32) / 16) as int), hex_digit(((c as u32) % 16) as int)]
    } else {
        seq![c]
    }
}

/// The escaped characters of `s`.
pub open spec fn escaped(s: Seq<char>) -> Seq<char>
    decreases s.len(),
{
    if s.len() == 0 {
        Seq::empty()
    } else {
        escaped(s.drop_last()) + escape_char(s.last())
    }
}

/// `s` as a JSON string literal.
pub open spec fn json_string(s: Seq<char>) -> Seq<char> {
    seq!['"'] + escaped(s) + seq!['"']
}

fn hex_of(d: u32) -> (c: char)
    requires
        d < 16,
    ensures
        c == hex_digit(d as int),
{
    if d == 0 { '0' }
    else if d == 1 { '1' }
    else if d == 2 { '2' }
    else if d == 3 { '3' }
    else if d == 4 { '4' }
    else if d == 5 { '5' }
    else if d == 6 { '6' }
    else if d == 7 { '7' }
    else if d == 8 { '8' }
    else if d == 9 { '9' }
    else if d == 10 { 'a' }
    else if d == 11 { 'b' }
    else if d == 12 { 'c' }
    else if d == 13 { 'd' }
    else if d == 14 { 'e' }
    else { 'f' }
}

fn push_escaped_char(out: &mut Vec<char>, c: char)
    ensures
        final(out)@ == old(out)@ + escape_char(c),
{
    let ghost before = out@;
    if c == '"' {
        out.push('\\');
        out.push('"');
    } else if c == '\\' {
        out.push('\\');
        out.push('\\');
    } else if c == '\u{8}' {
        out.push('\\');
        out.push('b');
    } else if c == '\t' {
        out.push('\\');
        out.push('t');
    } else if c == '\n' {
        out.push('\\');
        out.push('n');
    } else if c == '\u{c}' {
        out.push('\\');
        out.push('f');
    } else if c == '\r' {
        out.push('\\');
        out.push('r');
    } else if (c as u32) < 0x20 {
        let v = c as u32;
        out.push('\\');
        out.push('u');
        out.push('0');
        out.push('0');
        out.push(hex_of(v / 16));
        out.push(hex_of(v % 16));
    } else {
        out.push(c);
    }
    assert(out@ =~= before + escape_char(c));
}

/// Append `s` as a JSON string literal.
pub fn push_json_string(out: &mut Vec<char>, s: &str)
    ensures
        final(out)@ == old(out)@ + json_string(s@),
{
    let ghost before = out@;
    let cs = chars_of(s);
    let n = cs.len();
    out.push('"');
    let mut i: usize = 0;
    assert(cs@.take(0) =~= Seq::<char>::empty());
    while i < n
        invariant
            n == cs@.len(),
            cs@ == s@,
            i <= n,
            out@ == before + seq!['"'] + escaped(cs@.take(i as int)),
        decreases n - i,
    {
        assert(cs@.take(i + 1).drop_last() =~= cs@.take(i as int));
        push_escaped_char(out, cs[i]);
        i = i + 1;
    }
    assert(cs@.take(n as int) =~= cs@);
    out.push('"');
    assert(out@ =~= before + json_string(s@));
}

/// What `serde_json` writes for the JSON text `s` after reading it into a
/// `serde_json::Value`, or its message for why `s` is not JSON.
pub uninterp spec fn json_canonical(s: Seq<char>) -> Result<Seq<char>, Seq<char>>;

/// `serde_json::from_str::<serde_json::Value>` followed by `Value::to_string`.
/// How `serde_json` writes numbers and orders object members is not stated:
/// the result is named.
#[verifier::external_body]
pub(crate) fn canonical_json(s: &str) -> (r: Result<String, String>)
    ensures
        match r {
            Ok(v) => json_canonical(s@) == Ok::<Seq<char>, Seq<char>>(v@),
            Err(e) => json_canonical(s@) == Err::<Seq<char>, Seq<char>>(e@),
        },
{
    match serde_json::from_str::<serde_json::Value>(s) {
        Ok(v) => Ok(v.to_string()),
        Err(e) => Err(e.to_string()),
    }
}

/// Each key occurs once.
pub open spec fn keys_distinct(e: Seq<(Seq<char>, Seq<char>)>) -> bool {
    forall|i: int, j: int| 0 <= i < j < e.len() ==> (#[trigger] e[i]).0 != (#[trigger] e[j]).0
}

/// The text of a member list: `"key":value` pairs separated by commas.
pub open spec fn members_text(e: Seq<(Seq<char>, Seq<char>)>) -> Seq<char>
    decreases e.len(),
{
    if e.len() == 0 {
        Seq::empty()
    } else if e.len() == 1 {
        json_string(e[0].0) + seq![':'] + e[0].1
    } else {
        members_text(e.drop_last()) + seq![','] + json_string(e.last().0) + seq![':'] + e.last().1
    }
}

/// Some member has key `k`.
pub open spec fn has_key(e: Seq<(Seq<char>, Seq<char>)>, k: Seq<char>) -> bool {
    exists|i: int| 0 <= i < e.len() && (#[trigger] e[i]).0 == k
}

/// The members after setting `k` to `v`: the value of an existing key is
/// replaced where it stands, a new key is appended after the others.
pub open spec fn with_member(e: Seq<(Seq<char>, Seq<char>)>, k: Seq<char>, v: Seq<char>) -> Seq<(Seq<char>, Seq<char>)> {
    if has_key(e, k) {
        e.update(choose|i: int| 0 <= i < e.len() && (#[trigger] e[i]).0 == k, (k, v))
    } else {
        e.push((k, v))
    }
}

/// A JSON object under construction: members in the order their keys were
/// first set, one per key, as `serde_json`'s insertion-ordered map keeps
/// them. Values are JSON texts.
pub struct JsonObject {
    keys: Vec<String>,
    values: Vec<String>,
}

impl JsonObject {
    pub closed spec fn members(&self) -> Seq<(Seq<char>, Seq<char>)> {
        Seq::new(self.keys@.len(), |i: int| (self.keys@[i]@, self.values@[i]@))
    }

    pub closed spec fn wf(&self) -> bool {
        &&& self.keys@.len() == self.values@.len()
        &&& keys_distinct(self.members())
    }

    /// The empty object.
    pub fn new() -> (o: JsonObject)
        ensures
            o.wf(),
            o.members() == Seq::<(Seq<char>, Seq<char>)>::empty(),
    {
        let o = JsonObject { keys: Vec::new(), values: Vec::new() };
        assert(o.members() =~= Seq::<(Seq<char>, Seq<char>)>::empty());
        o
    }

    /// Set member `key` to `value`: a new key goes after the existing ones,
    /// an existing key has its value replaced in place.
    pub fn insert(&mut self, key: String, value: String)
        requires
            old(self).wf(),
        ensures
            final(self).wf(),
            final(self).members() == with_member(old(self).members(), key@, value@),
    {
        let ghost e = self.members();
        let ghost k = key@;
        let n = self.keys.len();
        let kc = chars_of(key.as_str());
        let mut p: usize = 0;
        while p < n && !eq_str(kc.as_slice(), self.keys[p].as_str())
            invariant
                n == self.keys@.len(),
                self.wf(),
                e == self.members(),
                kc@ == k,
                p <= n,
                forall|q: int| 0 <= q < p ==> (#[trigger] e[q]).0 != k,
            decreases n - p,
        {
            proof {
                assert(e[p as int].0 == self.keys@[p as int]@);
            }
            p = p + 1;
        }
        if p < n {
            assert(e[p as int].0 == k);
            assert(has_key(e, k));
            let ghost w = choose|i: int| 0 <= i < e.len() && (#[trigger] e[i]).0 == k;
            assert(w == p) by {
                if w != p {
                    if w < p {
                        assert(e[w].0 != k);
                    } else {
                        assert(e[p as int].0 != e[w].0);
                    }
                }
            }
            self.values.set(p, value);
            assert(self.members() =~= e.update(p as int, (k, value@)));
            proof {
                let e2 = self.members();
                assert forall|i: int, j: int| 0 <= i < j < e2.len() implies (#[trigger] e2[i]).0 != (#[trigger] e2[j]).0 by {
                    assert(e2[i].0 == e[i].0 && e2[j].0 == e[j].0);
                }
            }
        } else {
            assert(!has_key(e, k)) by {
                if has_key(e, k) {
                    let w = choose|i: int| 0 <= i < e.len() && (#[trigger] e[i]).0 == k;
                    assert(e[w].0 != k);
                }
            }
            let ghost vv = value@;
            self.keys.push(key);
            self.values.push(value);
            assert(self.members() =~= e.push((k, vv)));
            proof {
                let e2 = self.members();
                assert forall|i: int, j: int| 0 <= i < j < e2.len() implies (#[trigger] e2[i]).0 != (#[trigger] e2[j]).0 by {
                    if j < n {
                        assert(e2[i] == e[i] && e2[j] == e[j]);
                    } else {
                        assert(e2[i] == e[i]);
                        assert(e[i].0 != k);
                    }
                }
            }
        }
    }

    /// The object's JSON text.
    pub fn to_json(&self) -> (r: String)
        requires
            self.wf(),
        ensures
            r@ == seq!['{'] + members_text(self.members()) + seq!['}'],
    {
        let n = self.keys.len();
        let mut out: Vec<char> = Vec::new();
        out.push('{');
        let mut i: usize = 0;
        assert(self.members().take(0) =~= Seq::<(Seq<char>, Seq<char>)>::empty());
        while i < n
            invariant
                self.wf(),
                n == self.keys@.len(),
                i <= n,
                out@ == seq!['{'] + members_text(self.members().take(i as int)),
            decreases n - i,
        {
            let ghost pre = self.members().take(i as int);
            let ghost post = self.members().take(i + 1);
            assert(post.drop_last() =~= pre);
            assert(post.last() == (self.keys@[i as int]@, self.values@[i as int]@));
            if i > 0 {
                out.push(',');
            }
            push_json_string(&mut out, self.keys[i].as_str());
            out.push(':');
            push_str(&mut out, self.values[i].as_str());
            proof {
                if i == 0 {
                    assert(post.len() == 1);
                    assert(post[0] == (self.keys@[0]@, self.values@[0]@));
                }
            }
            assert(out@ =~= seq!['{'] + members_text(post));
            i = i + 1;
        }
        assert(self.members().take(n as int) =~= self.members());
        out.push('}');
        string_of(out.as_slice())
    }
}

} // verus!
