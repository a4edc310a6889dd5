//! Header maps as they cross the boundary: JSON objects of text, and the
//! rules by which entries that HTTP cannot carry are dropped.
use vstd::prelude::*;
use vstd::string::*;
use vstd::utf8::*;

verus! {

/// The entries of the JSON object that `b` holds, in the order that
/// serde_json's map walks them, each value as text where it is a JSON string;
/// `None` where `b` is not a JSON object.
pub uninterp spec fn json_object_of(b: Seq<u8>) -> Option<Seq<(Seq<char>, Option<Seq<char>>)>>;

/// The JSON text of the object with these string entries.
pub uninterp spec fn json_text_of(entries: Seq<(Seq<char>, Seq<char>)>) -> Seq<char>;

/// Whether the http crate takes these bytes as a header name.
pub uninterp spec fn header_name_accepts(name: Seq<u8>) -> bool;

/// Whether the mime crate parses this text as a media type.
pub uninterp spec fn mime_accepts(s: Seq<char>) -> bool;

pub open spec fn opt_text_view(v: Option<String>) -> Option<Seq<char>> {
    match v {
        Some(s) => Some(s@),
        None => None,
    }
}

pub open spec fn raw_entries_view(v: Seq<(String, Option<String>)>) -> Seq<(Seq<char>, Option<Seq<char>>)> {
    v.map_values(|e: (String, Option<String>)| (e.0@, opt_text_view(e.1)))
}

pub open spec fn pairs_view(v: Seq<(String, String)>) -> Seq<(Seq<char>, Seq<char>)> {
    v.map_values(|e: (String, String)| (e.0@, e.1@))
}

/// Relies on `serde_json::from_slice` into a `serde_json::Value`: the entries
/// of the object it parses, each string value kept as text.
#[verifier::external_body]
pub(crate) fn json_object_entries(b: &[u8]) -> (r: Option<Vec<(String, Option<String>)>>)
    ensures
        r.is_some() == json_object_of(b@).is_some(),
        r matches Some(v) ==> raw_entries_view(v@) == json_object_of(b@).unwrap(),
{
    match serde_json::from_slice::<serde_json::Value>(b) {
        Ok(serde_json::Value::Object(m)) => {
            let mut out = Vec::new();
            for (k, v) in m {
                let text = match v {
                    serde_json::Value::String(s) => Some(s),
                    _ => None,
                };
                out.push((k, text));
            }
            Some(out)
        },
        _ => None,
    }
}

/// Relies on serde_json's `Value::to_string` on an object of string values.
#[verifier::external_body]
pub(crate) fn json_object_text(entries: &Vec<(String, String)>) -> (r: String)
    ensures
        r@ == json_text_of(pairs_view(entries@)),
{
    let mut m = serde_json::Map::new();
    for (k, v) in entries.iter() {
        m.insert(k.clone(), serde_json::Value::String(v.clone()));
    }
    serde_json::Value::Object(m).to_string()
}

/// Relies on `HeaderName::from_bytes` of the http crate: whether it accepts
/// the name; it refuses an empty one.
#[verifier::external_body]
fn header_name_ok(name: &str) -> (r: bool)
    ensures
        r == header_name_accepts(name.spec_bytes()),
        name.spec_bytes().len() == 0 ==> !r,
{
    reqwest::header::HeaderName::from_bytes(name.as_bytes()).is_ok()
}

/// Relies on `Part::mime_str` of reqwest's multipart forms: whether the text
/// parses as a media type.
#[verifier::external_body]
pub(crate) fn mime_ok(s: &str) -> (r: bool)
    ensures
        r == mime_accepts(s@),
{
    reqwest::blocking::multipart::Part::text("").mime_str(s).is_ok()
}

/// A byte that the http crate accepts in a header value.
pub open spec fn header_value_byte(b: u8) -> bool {
    (b >= 32 && b != 127) || b == 9
}

pub open spec fn header_value_accepts(v: Seq<u8>) -> bool {
    forall|i: int| 0 <= i < v.len() ==> header_value_byte(#[trigger] v[i])
}

/// Relies on `HeaderValue::from_str` of the http crate, which accepts exactly
/// the text whose every byte is a tab or at least 32 and not 127.
#[verifier::external_body]
fn header_value_ok(value: &str) -> (r: bool)
    ensures
        r == header_value_accepts(value.spec_bytes()),
{
    reqwest::header::HeaderValue::from_str(value).is_ok()
}

/// Relies on `StatusCode::from_u16` of the http crate, which accepts exactly
/// the codes from 100 to 999.
#[verifier::external_body]
pub(crate) fn status_code_ok(status: u16) -> (r: bool)
    ensures
        r == (100 <= status < 1000),
{
    reqwest::StatusCode::from_u16(status).is_ok()
}

/// An entry that HTTP can carry as a header.
pub open spec fn header_ok(e: (Seq<char>, Seq<char>)) -> bool {
    header_name_accepts(encode_utf8(e.0)) && header_value_accepts(encode_utf8(e.1))
}

/// The entries that HTTP can carry, in their order.
pub open spec fn valid_headers(es: Seq<(Seq<char>, Seq<char>)>) -> Seq<(Seq<char>, Seq<char>)>
    decreases es.len(),
{
    if es.len() == 0 {
        seq![]
    } else if header_ok(es.last()) {
        valid_headers(es.drop_last()).push(es.last())
    } else {
        valid_headers(es.drop_last())
    }
}

/// Keeps the entries that HTTP can carry as headers, in their order.
pub fn keep_valid_headers(entries: Vec<(String, String)>) -> (r: Vec<(String, String)>)
    ensures
        pairs_view(r@) == valid_headers(pairs_view(entries@)),
{
    let mut r: Vec<(String, String)> = Vec::new();
    let mut i: usize = 0;
    let n = entries.len();
    while i < n
        invariant
            n == entries@.len(),
            i <= n,
            pairs_view(r@) == valid_headers(pairs_view(entries@.take(i as int))),
        decreases n - i,
    {
        let ghost old_r = r@;
        let name = entries[i].0.clone();
        let value = entries[i].1.clone();
        let keep = header_name_ok(name.as_str()) && header_value_ok(value.as_str());
        proof {
            let es = pairs_view(entries@.take(i + 1));
            assert(es.drop_last() =~= pairs_view(entries@.take(i as int)));
            assert(es.last() == (name@, value@));
        }
        if keep {
            r.push((name, value));
            assert(pairs_view(r@) =~= pairs_view(old_r).push((name@, value@)));
        }
        i = i + 1;
    }
    assert(entries@.take(n as int) =~= entries@);
    r
}

} // verus!
