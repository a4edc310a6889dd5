//! What the gateway answers a client, from what the guest handler returned.
use crate::headers::{
    json_object_entries, json_object_of, keep_valid_headers, opt_text_view, pairs_view, raw_entries_view,
    status_code_ok, valid_headers,
};
use vstd::prelude::*;
use vstd::string::*;
use vstd::utf8::*;

verus! {

/// The status by which a handler asks for its asynchronous twin to run.
pub const ASYNC_STATUS: u16 = 100;

pub const OK: u16 = 200;

pub const BAD_REQUEST: u16 = 400;

pub const NOT_FOUND: u16 = 404;

pub const INTERNAL_ERROR: u16 = 500;

pub const INVALID_HEADERS: &'static str = "Invalid response headers";

pub const INVALID_STATUS: &'static str = "Invalid status code";

pub const NOT_FOUND_TEXT: &'static str = "Not found";

/// A response to send to the client.
pub struct Response {
    pub status: u16,
    pub headers: Vec<(String, String)>,
    pub body: Vec<u8>,
}

/// A failure to send to the client: its status, and a message as the body.
pub struct ErrorResponse {
    pub status: u16,
    pub message: String,
}

/// What a guest handler returned.
pub struct GuestReply {
    pub status: u16,
    pub headers: String,
    pub body: Vec<u8>,
}

/// The decision for one inbound request: the twin to start, if any, and the
/// answer to the client.
pub struct Dispatch {
    pub twin: Option<String>,
    pub response: Result<Response, ErrorResponse>,
}

pub open spec fn all_text(es: Seq<(Seq<char>, Option<Seq<char>>)>) -> bool {
    forall|i: int| 0 <= i < es.len() ==> (#[trigger] es[i]).1 is Some
}

pub open spec fn texts(es: Seq<(Seq<char>, Option<Seq<char>>)>) -> Seq<(Seq<char>, Seq<char>)> {
    es.map_values(|e: (Seq<char>, Option<Seq<char>>)| (e.0, e.1.unwrap()))
}

/// The headers that a handler's header text asks for: none for the empty
/// text; `None` where the text is not a JSON object of strings.
pub open spec fn response_headers(h: Seq<char>) -> Option<Seq<(Seq<char>, Seq<char>)>> {
    if h.len() == 0 {
        Some(seq![])
    } else {
        match json_object_of(encode_utf8(h)) {
            Some(es) => if all_text(es) {
                Some(valid_headers(texts(es)))
            } else {
                None
            },
            None => None,
        }
    }
}

pub open spec fn is_error(r: Result<Response, ErrorResponse>, status: u16, message: Seq<char>) -> bool {
    r matches Err(e) && e.status == status && e.message@ == message
}

/// `r` is the answer for a handler result of `status`, header text `h` and `body`.
pub open spec fn settled(status: u16, h: Seq<char>, body: Seq<u8>, r: Result<Response, ErrorResponse>) -> bool {
    match response_headers(h) {
        None => is_error(r, INTERNAL_ERROR, INVALID_HEADERS@),
        Some(hs) => if 100 <= status < 1000 {
            r matches Ok(resp) && resp.status == status && pairs_view(resp.headers@) == hs
                && resp.body@ == body
        } else {
            is_error(r, INTERNAL_ERROR, INVALID_STATUS@)
        },
    }
}

/// The entries, where every value is text; `None` otherwise.
pub fn strict_texts(es: Vec<(String, Option<String>)>) -> (r: Option<Vec<(String, String)>>)
    ensures
        r is Some <==> all_text(raw_entries_view(es@)),
        r matches Some(v) ==> pairs_view(v@) == texts(raw_entries_view(es@)),
{
    let mut out: Vec<(String, String)> = Vec::new();
    let mut i: usize = 0;
    let n = es.len();
    while i < n
        invariant
            n == es@.len(),
            i <= n,
            out@.len() == i,
            forall|j: int| 0 <= j < i ==> (#[trigger] raw_entries_view(es@)[j]).1 is Some,
            forall|j: int|
                0 <= j < i ==> #[trigger] pairs_view(out@)[j] == texts(raw_entries_view(es@))[j],
        decreases n - i,
    {
        let name = es[i].0.clone();
        assert(raw_entries_view(es@)[i as int] == (es@[i as int].0@, opt_text_view(
            es@[i as int].1,
        )));
        match &es[i].1 {
            Some(v) => {
                let v = v.clone();
                let ghost prev = out@;
                out.push((name, v));
                assert forall|j: int| 0 <= j < i implies #[trigger] pairs_view(out@)[j] == pairs_view(
                    prev,
                )[j] by {
                    assert(out@[j] == prev[j]);
                }
                assert(pairs_view(out@)[i as int] == texts(raw_entries_view(es@))[i as int]);
            },
            None => {
                return None;
            },
        }
        i = i + 1;
    }
    assert(pairs_view(out@) =~= texts(raw_entries_view(es@)));
    Some(out)
}

/// Turns a handler's result into the response: its header text must be empty
/// or a JSON object of strings, of which the entries that HTTP can carry are
/// kept; its status must be one that HTTP knows.
pub fn settle_resp(status: u16, headers: &String, body: Vec<u8>) -> (r: Result<Response, ErrorResponse>)
    ensures
        settled(status, headers@, body@, r),
{
    let mut kept: Vec<(String, String)> = Vec::new();
    if !headers.as_str().is_empty() {
        let entries = match json_object_entries(headers.as_str().as_bytes()) {
            Some(es) => es,
            None => {
                return Err(ErrorResponse { status: INTERNAL_ERROR, message: INVALID_HEADERS.to_string() });
            },
        };
        let pairs = match strict_texts(entries) {
            Some(p) => p,
            None => {
                return Err(ErrorResponse { status: INTERNAL_ERROR, message: INVALID_HEADERS.to_string() });
            },
        };
        kept = keep_valid_headers(pairs);
    } else {
        assert(pairs_view(kept@) =~= seq![]);
    }
    if !status_code_ok(status) {
        return Err(ErrorResponse { status: INTERNAL_ERROR, message: INVALID_STATUS.to_string() });
    }
    Ok(Response { status, headers: kept, body })
}

/// Decides the answer to one inbound request from what its handler returned.
/// A handler that returns `ASYNC_STATUS` on a route with an asynchronous twin
/// has the twin started, and the client sees `OK`; otherwise no twin runs and
/// the client sees the handler's own status.
pub fn dispatch(async_func_name: &Option<String>, outcome: Result<GuestReply, String>) -> (r: Dispatch)
    ensures
        outcome matches Err(e) ==> r.twin is None && is_error(r.response, INTERNAL_ERROR, e@),
        outcome matches Ok(g) ==> if g.status == ASYNC_STATUS && async_func_name is Some {
            r.twin matches Some(t) && t@ == async_func_name.unwrap()@ && settled(
                OK,
                g.headers@,
                g.body@,
                r.response,
            )
        } else {
            r.twin is None && settled(g.status, g.headers@, g.body@, r.response)
        },
{
    match outcome {
        Err(e) => Dispatch { twin: None, response: Err(ErrorResponse { status: INTERNAL_ERROR, message: e }) },
        Ok(g) => {
            match async_func_name {
                Some(name) if g.status == ASYNC_STATUS => {
                    let response = settle_resp(OK, &g.headers, g.body);
                    Dispatch { twin: Some(name.clone()), response }
                },
                _ => {
                    let response = settle_resp(g.status, &g.headers, g.body);
                    Dispatch { twin: None, response }
                },
            }
        },
    }
}

} // verus!
