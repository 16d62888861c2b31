//! JSON documents as the library reads them: `serde_json` parses the text,
//! and the value is copied into plain types that the checks read.
use vstd::prelude::*;

verus! {

/// A JSON value. A number is kept as the text `serde_json` writes for it;
/// an object as its entries, each key once.
#[derive(Debug, PartialEq, Eq)]
pub enum JsonNode {
    Null,
    Bool(bool),
    Number(String),
    Str(String),
    Array(Vec<JsonNode>),
    Object(Vec<(String, JsonNode)>),
}

/// The mathematical value of a JSON value.
pub enum JsonV {
    Null,
    Bool(bool),
    Number(Seq<char>),
    Str(Seq<char>),
    Array(Seq<JsonV>),
    Object(Seq<(Seq<char>, JsonV)>),
}

pub open spec fn json_v(n: JsonNode) -> JsonV
    decreases n,
{
    match n {
        JsonNode::Null => JsonV::Null,
        JsonNode::Bool(b) => JsonV::Bool(b),
        JsonNode::Number(t) => JsonV::Number(t@),
        JsonNode::Str(s) => JsonV::Str(s@),
        JsonNode::Array(vs) => JsonV::Array(json_vs(vs@)),
        JsonNode::Object(es) => JsonV::Object(json_entries(es@)),
    }
}

pub open spec fn json_vs(vs: Seq<JsonNode>) -> Seq<JsonV>
    decreases vs,
{
    Seq::new(vs.len(), |i: int| if 0 <= i < vs.len() { json_v(vs[i]) } else { JsonV::Null })
}

pub open spec fn json_entries(es: Seq<(String, JsonNode)>) -> Seq<(Seq<char>, JsonV)>
    decreases es,
{
    Seq::new(
        es.len(),
        |i: int| if 0 <= i < es.len() { (es[i].0@, json_v(es[i].1)) } else { (Seq::empty(), JsonV::Null) },
    )
}

impl View for JsonNode {
    type V = JsonV;

    open spec fn view(&self) -> JsonV {
        json_v(*self)
    }
}

#[verifier::external_type_specification]
#[verifier::external_body]
pub struct ExJsonValue(serde_json::Value);

/// A name for what `serde_json` reads from a document text: its value, or
/// the text of its error.
pub uninterp spec fn json_document(text: Seq<char>) -> Result<JsonV, Seq<char>>;

/// `serde_json::from_str::<serde_json::Value>` on the text, with the value
/// copied into the library's types, or the `Display` text of the error. The
/// result is named, as a function of the text; nothing more is claimed.
#[verifier::external_body]
pub fn parse_json_document(text: &str) -> (r: Result<JsonNode, String>)
    ensures
        match json_document(text@) {
            Ok(v) => r matches Ok(x) && x@ == v,
            Err(e) => r matches Err(m) && m@ == e,
        },
{
    match serde_json::from_str::<serde_json::Value>(text) {
        Ok(v) => Ok(json_node(v)),
        Err(e) => Err(e.to_string()),
    }
}

/// Copies a `serde_json::Value` into the library's types, node for node;
/// the conversion step of `parse_json_document`.
#[verifier::external_body]
fn json_node(v: serde_json::Value) -> JsonNode {
    match v {
        serde_json::Value::Null => JsonNode::Null,
        serde_json::Value::Bool(b) => JsonNode::Bool(b),
        serde_json::Value::Number(n) => JsonNode::Number(n.to_string()),
        serde_json::Value::String(s) => JsonNode::Str(s),
        serde_json::Value::Array(a) => JsonNode::Array(a.into_iter().map(json_node).collect()),
        serde_json::Value::Object(o) => JsonNode::Object(o.into_iter().map(|e| (e.0, json_node(e.1))).collect()),
    }
}

/// The value under the first entry with this key.
pub open spec fn json_entry(es: Seq<(Seq<char>, JsonV)>, key: Seq<char>) -> Option<JsonV>
    decreases es.len(),
{
    if es.len() == 0 {
        None
    } else if es[0].0 == key {
        Some(es[0].1)
    } else {
        json_entry(es.drop_first(), key)
    }
}

/// The value under a key of an object; nothing for other values.
pub open spec fn json_get(v: JsonV, key: Seq<char>) -> Option<JsonV> {
    match v {
        JsonV::Object(es) => json_entry(es, key),
        _ => None,
    }
}

/// The text of a string value.
pub open spec fn json_str(v: Option<JsonV>) -> Option<Seq<char>> {
    match v {
        Some(JsonV::Str(s)) => Some(s),
        _ => None,
    }
}

/// The items of an array value.
pub open spec fn json_array(v: Option<JsonV>) -> Option<Seq<JsonV>> {
    match v {
        Some(JsonV::Array(vs)) => Some(vs),
        _ => None,
    }
}

/// The whole number of a number value, as `as_u64` reads it: digits only.
pub open spec fn json_u64(v: Option<JsonV>) -> Option<u64> {
    match v {
        Some(JsonV::Number(t)) => digits_value(t),
        _ => None,
    }
}

/// The value of a nonempty run of decimal digits that fits in a `u64`.
pub open spec fn digits_value(t: Seq<char>) -> Option<u64>
    decreases t.len(),
{
    if t.len() == 0 || !('0' <= t.last() <= '9') {
        None
    } else if t.len() == 1 {
        Some((t.last() as u64 - '0' as u64) as u64)
    } else {
        match digits_value(t.drop_last()) {
            Some(n) => if n * 10 + (t.last() as u64 - '0' as u64) <= u64::MAX {
                Some((n * 10 + (t.last() as u64 - '0' as u64)) as u64)
            } else {
                None
            },
            None => None,
        }
    }
}

/// The value under a key of an object, if any.
pub fn get<'a>(v: &'a JsonNode, key: &str) -> (r: Option<&'a JsonNode>)
    ensures
        match json_get(v@, key@) {
            Some(x) => r matches Some(y) && y@ == x,
            None => r is None,
        },
{
    match v {
        JsonNode::Object(es) => {
            let ghost s = json_entries(es@);
            let mut i: usize = 0;
            assert(s.skip(0) =~= s);
            while i < es.len()
                invariant
                    i <= es@.len(),
                    s == json_entries(es@),
                    s.len() == es@.len(),
                    v@ == JsonV::Object(s),
                    json_entry(s, key@) == json_entry(s.skip(i as int), key@),
                decreases es@.len() - i,
            {
                assert(s.skip(i as int).len() > 0);
                assert(s.skip(i as int)[0] == (es@[i as int].0@, json_v(es@[i as int].1)));
                if crate::text::string_eq_str(&es[i].0, key) {
                    assert(json_entry(s.skip(i as int), key@) == Some(json_v(es@[i as int].1)));
                    return Some(&es[i].1);
                }
                assert(s.skip(i as int).drop_first() =~= s.skip(i + 1));
                i = i + 1;
            }
            None
        },
        _ => None,
    }
}

/// The text of a string value under a key.
pub fn get_str<'a>(v: &'a JsonNode, key: &str) -> (r: Option<&'a String>)
    ensures
        match json_str(json_get(v@, key@)) {
            Some(s) => r matches Some(x) && x@ == s,
            None => r is None,
        },
{
    match get(v, key) {
        Some(JsonNode::Str(s)) => Some(s),
        _ => None,
    }
}

/// The items of an array value under a key.
pub fn get_array<'a>(v: &'a JsonNode, key: &str) -> (r: Option<&'a Vec<JsonNode>>)
    ensures
        match json_array(json_get(v@, key@)) {
            Some(s) => r matches Some(x) && json_vs(x@) == s,
            None => r is None,
        },
{
    match get(v, key) {
        Some(JsonNode::Array(a)) => Some(a),
        _ => None,
    }
}

/// The whole number under a key, read as `as_u64` reads it.
pub fn get_u64(v: &JsonNode, key: &str) -> (r: Option<u64>)
    ensures
        r == json_u64(json_get(v@, key@)),
{
    match get(v, key) {
        Some(JsonNode::Number(t)) => {
            let c = crate::text::chars_of(t.as_str());
            digits_value_exec(&c)
        },
        _ => None,
    }
}

fn digits_value_exec(t: &Vec<char>) -> (r: Option<u64>)
    ensures
        r == digits_value(t@),
{
    if t.len() == 0 {
        return None;
    }
    let mut n: u64 = 0;
    let mut i: usize = 0;
    while i < t.len()
        invariant
            0 < t@.len(),
            i <= t@.len(),
            i > 0 ==> digits_value(t@.take(i as int)) == Some(n),
        decreases t@.len() - i,
    {
        let c = t[i];
        assert(t@.take(i + 1).drop_last() =~= t@.take(i as int));
        assert(t@.take(i + 1).last() == c);
        if !('0' <= c && c <= '9') {
            proof {
                lemma_digits_bad_prefix(t@, i as int + 1);
            }
            return None;
        }
        let d = (c as u64) - ('0' as u64);
        if i == 0 {
            n = d;
        } else {
            if n > (u64::MAX - d) / 10 {
                proof {
                    assert(n * 10 + d > u64::MAX) by (nonlinear_arith)
                        requires
                            n > (u64::MAX - d) / 10,
                            d <= 9,
                    ;
                    lemma_digits_bad_prefix(t@, i as int + 1);
                }
                return None;
            }
            assert(n * 10 + d <= u64::MAX) by (nonlinear_arith)
                requires
                    n <= (u64::MAX - d) / 10,
                    d <= 9,
            ;
            n = n * 10 + d;
        }
        i = i + 1;
    }
    assert(t@.take(i as int) =~= t@);
    Some(n)
}

/// Once a prefix has no value, no longer text has one.
proof fn lemma_digits_bad_prefix(t: Seq<char>, k: int)
    requires
        0 < k <= t.len(),
        digits_value(t.take(k)) is None,
    ensures
        digits_value(t) is None,
    decreases t.len() - k,
{
    if k < t.len() {
        assert(t.take(k + 1).drop_last() =~= t.take(k));
        lemma_digits_bad_prefix(t, k + 1);
    } else {
        assert(t.take(k) =~= t);
    }
}


/// A name for the compact text `serde_json` writes for the value it reads
/// from a document text, or nothing where the text is not JSON.
pub uninterp spec fn json_compact(text: Seq<char>) -> Option<Seq<char>>;

/// `serde_json::from_str::<serde_json::Value>` and then the value's
/// `Display` text. The result is named, as a function of the text.
#[verifier::external_body]
pub fn compact_json_text(text: &str) -> (r: Option<String>)
    ensures
        match json_compact(text@) {
            Some(t) => r matches Some(x) && x@ == t,
            None => r is None,
        },
{
    serde_json::from_str::<serde_json::Value>(text).ok().map(|v| v.to_string())
}

/// The texts of the string items of a list, in order; other items are
/// passed over.
pub open spec fn str_items(items: Seq<JsonV>) -> Seq<Seq<char>>
    decreases items.len(),
{
    if items.len() == 0 {
        Seq::empty()
    } else {
        let rest = str_items(items.drop_last());
        match items.last() {
            JsonV::Str(s) => rest.push(s),
            _ => rest,
        }
    }
}

/// The keys of an object's entries whose value is a string, in order.
pub open spec fn str_keys(es: Seq<(Seq<char>, JsonV)>) -> Seq<Seq<char>>
    decreases es.len(),
{
    if es.len() == 0 {
        Seq::empty()
    } else {
        let rest = str_keys(es.drop_last());
        match es.last().1 {
            JsonV::Str(_) => rest.push(es.last().0),
            _ => rest,
        }
    }
}

/// The string items of a list.
pub fn string_items(items: &Vec<JsonNode>) -> (r: Vec<String>)
    ensures
        crate::playground::texts(r@) == str_items(json_vs(items@)),
{
    let ghost all = json_vs(items@);
    let mut out: Vec<String> = Vec::new();
    let mut i: usize = 0;
    while i < items.len()
        invariant
            i <= items@.len(),
            all == json_vs(items@),
            all.len() == items@.len(),
            crate::playground::texts(out@) == str_items(all.take(i as int)),
        decreases items@.len() - i,
    {
        assert(all.take(i + 1).drop_last() =~= all.take(i as int));
        assert(all.take(i + 1).last() == items@[i as int]@);
        match &items[i] {
            JsonNode::Str(s) => {
                let ghost before = crate::playground::texts(out@);
                out.push(s.clone());
                assert(crate::playground::texts(out@) =~= before.push(s@));
            },
            _ => {},
        }
        i = i + 1;
    }
    assert(all.take(i as int) =~= all);
    out
}

/// The keys of an object value under a key whose entries hold strings, or
/// nothing where that value is not an object.
pub open spec fn json_str_keys(v: Option<JsonV>) -> Option<Seq<Seq<char>>> {
    match v {
        Some(JsonV::Object(es)) => Some(str_keys(es)),
        _ => None,
    }
}

/// The keys under which an object value holds strings.
pub fn string_keys(v: Option<&JsonNode>) -> (r: Option<Vec<String>>)
    ensures
        match json_str_keys(match v {
            Some(x) => Some(x@),
            None => None,
        }) {
            Some(ks) => r matches Some(x) && crate::playground::texts(x@) == ks,
            None => r is None,
        },
{
    match v {
        Some(JsonNode::Object(es)) => {
            let ghost all = json_entries(es@);
            let mut out: Vec<String> = Vec::new();
            let mut i: usize = 0;
            while i < es.len()
                invariant
                    i <= es@.len(),
                    all == json_entries(es@),
                    all.len() == es@.len(),
                    crate::playground::texts(out@) == str_keys(all.take(i as int)),
                decreases es@.len() - i,
            {
                assert(all.take(i + 1).drop_last() =~= all.take(i as int));
                assert(all.take(i + 1).last() == (es@[i as int].0@, es@[i as int].1@));
                match &es[i].1 {
                    JsonNode::Str(_) => {
                        let ghost before = crate::playground::texts(out@);
                        out.push(es[i].0.clone());
                        assert(crate::playground::texts(out@) =~= before.push(es@[i as int].0@));
                    },
                    _ => {},
                }
                i = i + 1;
            }
            assert(all.take(i as int) =~= all);
            Some(out)
        },
        _ => None,
    }
}

} // verus!
