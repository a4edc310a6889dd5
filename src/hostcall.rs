//! The host callbacks that a guest calls to make outbound requests: how their
//! integer arguments are read, and what the outbound request then holds.
use crate::fileparts::{copy_range, decode_parts, utf8_string, FilePart, FileParts, PartView};
use crate::headers::{
    json_object_entries, json_object_of, keep_valid_headers, mime_accepts, mime_ok, opt_text_view,
    pairs_view, raw_entries_view, valid_headers,
};
use crate::wire::{i32_bits, method_of_byte, RequestMethod, TERMINATE};
use vstd::prelude::*;
use vstd::utf8::*;

verus! {

/// Number of arguments of `send_request` and `send_async_request`.
pub const PLAIN_ARITY: usize = 7;

/// Number of arguments of `send_fileparts_request` and
/// `send_async_fileparts_request`.
pub const FILEPARTS_ARITY: usize = 9;

/// A range of the guest's linear memory.
#[derive(Clone, Copy, Debug, PartialEq, Eq, Structural)]
pub struct Region {
    pub offset: u32,
    pub len: u32,
}

/// The memory that a callback's arguments point at, and the method they name.
#[derive(Clone, Copy, Debug, PartialEq, Eq, Structural)]
pub struct CallPlan {
    pub url: Region,
    pub method: RequestMethod,
    pub headers: Option<Region>,
    pub body: Option<Region>,
    pub fileparts: Option<Region>,
}

/// An outbound request that a guest asked for.
pub struct OutboundRequest {
    pub url: String,
    pub method: RequestMethod,
    pub headers: Vec<(String, String)>,
    pub body: Vec<u8>,
    pub fileparts: Vec<u8>,
}

pub open spec fn region_of(ptr: i32, len: i32) -> Region {
    Region { offset: i32_bits(ptr), len: i32_bits(len) }
}

/// A region that a zero pointer marks absent.
pub open spec fn optional_region(ptr: i32, len: i32) -> Option<Region> {
    if ptr == 0 {
        None
    } else {
        Some(region_of(ptr, len))
    }
}

pub open spec fn arity(with_fileparts: bool) -> nat {
    if with_fileparts {
        FILEPARTS_ARITY as nat
    } else {
        PLAIN_ARITY as nat
    }
}

#[verifier::truncate]
pub open spec fn low_byte(x: i32) -> u8 {
    x as u8
}

pub open spec fn plan_of(inputs: Seq<i32>, with_fileparts: bool) -> CallPlan {
    CallPlan {
        url: region_of(inputs[0], inputs[1]),
        method: method_of_byte(low_byte(inputs[2])),
        headers: optional_region(inputs[3], inputs[4]),
        body: optional_region(inputs[5], inputs[6]),
        fileparts: if with_fileparts {
            optional_region(inputs[7], inputs[8])
        } else {
            None
        },
    }
}

fn region(ptr: i32, len: i32) -> (r: Region)
    ensures
        r == region_of(ptr, len),
{
    Region { offset: #[verifier::truncate] (ptr as u32), len: #[verifier::truncate] (len as u32) }
}

fn optional(ptr: i32, len: i32) -> (r: Option<Region>)
    ensures
        r == optional_region(ptr, len),
{
    if ptr == 0 {
        None
    } else {
        Some(region(ptr, len))
    }
}

/// Reads a callback's arguments: a wrong number of them, or a method byte
/// that names no method, gives `TERMINATE`.
pub fn plan_call(inputs: &Vec<i32>, with_fileparts: bool) -> (r: Result<CallPlan, u8>)
    ensures
        r is Ok <==> inputs@.len() == arity(with_fileparts) && method_of_byte(low_byte(inputs@[2]))
            != RequestMethod::UNKNOWN,
        r matches Err(c) ==> c == TERMINATE,
        r matches Ok(p) ==> p == plan_of(inputs@, with_fileparts),
{
    let expected = if with_fileparts {
        FILEPARTS_ARITY
    } else {
        PLAIN_ARITY
    };
    if inputs.len() != expected {
        return Err(TERMINATE);
    }
    let method = RequestMethod::from_byte(#[verifier::truncate] (inputs[2] as u8));
    if method == RequestMethod::UNKNOWN {
        return Err(TERMINATE);
    }
    let fileparts = if with_fileparts {
        optional(inputs[7], inputs[8])
    } else {
        None
    };
    Ok(CallPlan {
        url: region(inputs[0], inputs[1]),
        method,
        headers: optional(inputs[3], inputs[4]),
        body: optional(inputs[5], inputs[6]),
        fileparts,
    })
}

pub open spec fn lenient_texts(es: Seq<(Seq<char>, Option<Seq<char>>)>) -> Seq<(Seq<char>, Seq<char>)> {
    es.map_values(
        |e: (Seq<char>, Option<Seq<char>>)|
            (
                e.0,
                match e.1 {
                    Some(t) => t,
                    None => Seq::<char>::empty(),
                },
            ),
    )
}

/// The headers that a guest's header bytes ask for: a UTF-8 JSON object whose
/// values that are not strings count as empty, less the entries that HTTP
/// cannot carry; `None` for anything else.
pub open spec fn request_headers(b: Seq<u8>) -> Option<Seq<(Seq<char>, Seq<char>)>> {
    if !valid_utf8(b) {
        None
    } else {
        match json_object_of(b) {
            Some(es) => Some(valid_headers(lenient_texts(es))),
            None => None,
        }
    }
}

/// A read that the plan asks for came back.
pub open spec fn read_present(region: Option<Region>, read: Option<Vec<u8>>) -> bool {
    region is Some ==> read is Some
}

pub open spec fn read_bytes(region: Option<Region>, read: Option<Vec<u8>>) -> Seq<u8> {
    if region is Some {
        read.unwrap()@
    } else {
        seq![]
    }
}

pub open spec fn decodable(plan: CallPlan, url: Option<Vec<u8>>, headers: Option<Vec<u8>>, body: Option<Vec<u8>>, fileparts: Option<Vec<u8>>) -> bool {
    &&& url matches Some(u) && valid_utf8(u@)
    &&& read_present(plan.headers, headers)
    &&& plan.headers is Some ==> request_headers(headers.unwrap()@) is Some
    &&& read_present(plan.body, body)
    &&& read_present(plan.fileparts, fileparts)
}

pub fn lenient_pairs(es: Vec<(String, Option<String>)>) -> (r: Vec<(String, String)>)
    ensures
        pairs_view(r@) == lenient_texts(raw_entries_view(es@)),
{
    let mut out: Vec<(String, String)> = Vec::new();
    let mut i: usize = 0;
    let n = es.len();
    while i < n
        invariant
            n == es@.len(),
            i <= n,
            out@.len() == i,
            forall|j: int|
                0 <= j < i ==> #[trigger] pairs_view(out@)[j] == lenient_texts(raw_entries_view(es@))[j],
        decreases n - i,
    {
        let name = es[i].0.clone();
        let value = match &es[i].1 {
            Some(v) => v.clone(),
            None => String::new(),
        };
        assert(raw_entries_view(es@)[i as int] == (es@[i as int].0@, opt_text_view(
            es@[i as int].1,
        )));
        let ghost prev = out@;
        out.push((name, value));
        assert forall|j: int| 0 <= j < i implies #[trigger] pairs_view(out@)[j] == pairs_view(prev)[j] by {
            assert(out@[j] == prev[j]);
        }
        i = i + 1;
    }
    assert(pairs_view(out@) =~= lenient_texts(raw_entries_view(es@)));
    out
}

fn guest_headers(b: Vec<u8>) -> (r: Option<Vec<(String, String)>>)
    ensures
        r is Some <==> request_headers(b@) is Some,
        r matches Some(v) ==> pairs_view(v@) == request_headers(b@).unwrap(),
{
    let text = match utf8_string(b) {
        Some(t) => t,
        None => return None,
    };
    proof {
        decode_utf8_encode_utf8(b@);
    }
    match json_object_entries(text.as_str().as_bytes()) {
        Some(es) => Some(keep_valid_headers(lenient_pairs(es))),
        None => None,
    }
}

/// Builds the outbound request from the memory that `plan` points at. Each
/// read is what reading the plan's region gave, `None` where that read
/// failed; a read of a region that the plan leaves out is ignored. Anything
/// that cannot be decoded gives `TERMINATE`.
pub fn decode_call(
    plan: &CallPlan,
    url: Option<Vec<u8>>,
    headers: Option<Vec<u8>>,
    body: Option<Vec<u8>>,
    fileparts: Option<Vec<u8>>,
) -> (r: Result<OutboundRequest, u8>)
    ensures
        r is Ok <==> decodable(*plan, url, headers, body, fileparts),
        r matches Err(c) ==> c == TERMINATE,
        r matches Ok(q) ==> {
            &&& q.url@ == decode_utf8(url.unwrap()@)
            &&& q.method == plan.method
            &&& pairs_view(q.headers@) == if plan.headers is Some {
                request_headers(headers.unwrap()@).unwrap()
            } else {
                seq![]
            }
            &&& q.body@ == read_bytes(plan.body, body)
            &&& q.fileparts@ == read_bytes(plan.fileparts, fileparts)
        },
{
    let url = match url {
        Some(u) => match utf8_string(u) {
            Some(s) => s,
            None => return Err(TERMINATE),
        },
        None => return Err(TERMINATE),
    };
    let header_pairs = match plan.headers {
        Some(_) => match headers {
            Some(h) => match guest_headers(h) {
                Some(v) => v,
                None => return Err(TERMINATE),
            },
            None => return Err(TERMINATE),
        },
        None => {
            let v: Vec<(String, String)> = Vec::new();
            assert(pairs_view(v@) =~= seq![]);
            v
        },
    };
    let body = match plan.body {
        Some(_) => match body {
            Some(b) => b,
            None => return Err(TERMINATE),
        },
        None => Vec::new(),
    };
    let fileparts = match plan.fileparts {
        Some(_) => match fileparts {
            Some(f) => f,
            None => return Err(TERMINATE),
        },
        None => Vec::new(),
    };
    Ok(OutboundRequest { url, method: plan.method, headers: header_pairs, body, fileparts })
}

// ---------------------------------------------------------------- multipart forms

/// What an outbound `multipart/form-data` request carries: text fields, and
/// files that go under the field name `file`.
pub struct FormPlan {
    pub texts: Vec<(String, String)>,
    pub files: Vec<FilePart>,
}

pub open spec fn parts_view(v: Seq<FilePart>) -> Seq<PartView> {
    v.map_values(|p: FilePart| p@)
}

/// The entries whose value is a string.
pub open spec fn string_entries(es: Seq<(Seq<char>, Option<Seq<char>>)>) -> Seq<(Seq<char>, Seq<char>)>
    decreases es.len(),
{
    if es.len() == 0 {
        seq![]
    } else {
        match es.last().1 {
            Some(t) => string_entries(es.drop_last()).push((es.last().0, t)),
            None => string_entries(es.drop_last()),
        }
    }
}

/// The text fields of a form: the string entries of the body's JSON object;
/// none where the body is not a JSON object.
pub open spec fn form_texts(body: Seq<u8>) -> Seq<(Seq<char>, Seq<char>)> {
    match json_object_of(body) {
        Some(es) => string_entries(es),
        None => seq![],
    }
}

/// The parts whose mime string parses as a media type.
pub open spec fn typed_parts(ps: Seq<PartView>) -> Seq<PartView>
    decreases ps.len(),
{
    if ps.len() == 0 {
        seq![]
    } else if mime_accepts(ps.last().mime_str) {
        typed_parts(ps.drop_last()).push(ps.last())
    } else {
        typed_parts(ps.drop_last())
    }
}

pub fn string_pairs(es: Vec<(String, Option<String>)>) -> (r: Vec<(String, String)>)
    ensures
        pairs_view(r@) == string_entries(raw_entries_view(es@)),
{
    let mut out: Vec<(String, String)> = Vec::new();
    let mut i: usize = 0;
    let n = es.len();
    while i < n
        invariant
            n == es@.len(),
            i <= n,
            pairs_view(out@) == string_entries(raw_entries_view(es@.take(i as int))),
        decreases n - i,
    {
        proof {
            let v = raw_entries_view(es@.take(i + 1));
            assert(v.drop_last() =~= raw_entries_view(es@.take(i as int)));
            assert(v.last() == (es@[i as int].0@, opt_text_view(es@[i as int].1)));
        }
        match &es[i].1 {
            Some(v) => {
                let ghost prev = out@;
                out.push((es[i].0.clone(), v.clone()));
                assert(pairs_view(out@) =~= pairs_view(prev).push((es@[i as int].0@, v@)));
            },
            None => {},
        }
        i = i + 1;
    }
    assert(es@.take(n as int) =~= es@);
    out
}

fn copy_part(p: &FilePart) -> (r: FilePart)
    ensures
        r@ == p@,
{
    let bytes = copy_range(&p.bytes, 0, p.bytes.len());
    assert(bytes@ =~= p.bytes@);
    FilePart { file_name: p.file_name.clone(), mime_str: p.mime_str.clone(), bytes }
}

/// The form for an outbound multipart request: the string entries of the
/// JSON object in `body` as text fields, and the decoded file parts whose
/// mime string parses; the other parts are left out.
pub fn plan_form(body: &Vec<u8>, fileparts: &Vec<u8>) -> (r: FormPlan)
    ensures
        pairs_view(r.texts@) == form_texts(body@),
        parts_view(r.files@) == typed_parts(decode_parts(fileparts@)),
{
    let texts = match json_object_entries(body.as_slice()) {
        Some(es) => string_pairs(es),
        None => {
            let v: Vec<(String, String)> = Vec::new();
            assert(pairs_view(v@) =~= seq![]);
            v
        },
    };
    let decoded = FileParts::decode(fileparts);
    let ghost ps = decoded@;
    let mut files: Vec<FilePart> = Vec::new();
    let mut i: usize = 0;
    let n = decoded.inner.len();
    while i < n
        invariant
            n == decoded.inner@.len(),
            ps == decoded@,
            i <= n,
            parts_view(files@) == typed_parts(ps.take(i as int)),
        decreases n - i,
    {
        let part = &decoded.inner[i];
        proof {
            assert(ps.take(i + 1).drop_last() =~= ps.take(i as int));
            assert(ps.take(i + 1).last() == part@);
        }
        if mime_ok(part.mime_str.as_str()) {
            let ghost prev = files@;
            files.push(copy_part(part));
            assert(parts_view(files@) =~= parts_view(prev).push(part@));
        }
        i = i + 1;
    }
    assert(ps.take(n as int) =~= ps);
    FormPlan { texts, files }
}

} // verus!
