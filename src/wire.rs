//! Values that cross the guest-host boundary as integers: the request method
//! byte, the host callbacks' failure codes, the 12-byte reply trailer and the
//! argument list of the host callbacks.
use crate::fileparts::read_field;
use vstd::bytes::*;
use vstd::prelude::*;

verus! {

/// A host callback could not decode its input; the guest is expected to abort.
pub const TERMINATE: u8 = 1;

/// An outbound request failed in transport; the guest may recover.
pub const FAIL: u8 = 2;

/// Number of bytes of the reply trailer.
pub const TRAILER_LEN: usize = 12;

/// Request method as one byte on the guest-host boundary.
#[derive(Clone, Copy, Debug, PartialEq, Eq, Structural)]
pub enum RequestMethod {
    GET,
    POST,
    PUT,
    DELETE,
    UNKNOWN,
}

pub open spec fn method_of_byte(b: u8) -> RequestMethod {
    if b == 0 {
        RequestMethod::GET
    } else if b == 1 {
        RequestMethod::POST
    } else if b == 2 {
        RequestMethod::PUT
    } else if b == 3 {
        RequestMethod::DELETE
    } else {
        RequestMethod::UNKNOWN
    }
}

pub open spec fn byte_of_method(m: RequestMethod) -> u8 {
    match m {
        RequestMethod::GET => 0,
        RequestMethod::POST => 1,
        RequestMethod::PUT => 2,
        RequestMethod::DELETE => 3,
        RequestMethod::UNKNOWN => 4,
    }
}

pub open spec fn method_name(m: RequestMethod) -> Seq<char> {
    match m {
        RequestMethod::GET => "GET"@,
        RequestMethod::POST => "POST"@,
        RequestMethod::PUT => "PUT"@,
        RequestMethod::DELETE => "DELETE"@,
        RequestMethod::UNKNOWN => "UNKNOWN"@,
    }
}

impl RequestMethod {
    pub fn from_byte(b: u8) -> (r: RequestMethod)
        ensures
            r == method_of_byte(b),
    {
        match b {
            0 => RequestMethod::GET,
            1 => RequestMethod::POST,
            2 => RequestMethod::PUT,
            3 => RequestMethod::DELETE,
            _ => RequestMethod::UNKNOWN,
        }
    }

    pub fn to_byte(&self) -> (r: u8)
        ensures
            r == byte_of_method(*self),
    {
        match self {
            RequestMethod::GET => 0,
            RequestMethod::POST => 1,
            RequestMethod::PUT => 2,
            RequestMethod::DELETE => 3,
            RequestMethod::UNKNOWN => 4,
        }
    }

    /// The method's name, as an HTTP client spells it.
    pub fn as_str(&self) -> (r: &'static str)
        ensures
            r@ == method_name(*self),
    {
        match self {
            RequestMethod::GET => "GET",
            RequestMethod::POST => "POST",
            RequestMethod::PUT => "PUT",
            RequestMethod::DELETE => "DELETE",
            RequestMethod::UNKNOWN => "UNKNOWN",
        }
    }

    /// The same text as `as_str`, owned.
    pub fn to_string(&self) -> (r: String)
        ensures
            r@ == method_name(*self),
    {
        self.as_str().to_owned()
    }
}

impl From<u8> for RequestMethod {
    fn from(b: u8) -> (r: RequestMethod) {
        RequestMethod::from_byte(b)
    }
}

impl vstd::std_specs::convert::FromSpecImpl<u8> for RequestMethod {
    open spec fn obeys_from_spec() -> bool {
        true
    }

    open spec fn from_spec(b: u8) -> RequestMethod {
        method_of_byte(b)
    }
}

// ---------------------------------------------------------------- reply trailer

#[verifier::truncate]
pub open spec fn i32_bits(x: i32) -> u32 {
    x as u32
}

#[verifier::truncate]
pub open spec fn bits_i32(x: u32) -> i32 {
    x as i32
}

/// A length as the 32-bit pattern that travels in an `i32` argument or field;
/// the other side reads it back as `u32`.
#[verifier::truncate]
pub open spec fn len_bits(n: usize) -> i32 {
    n as i32
}

/// Largest length that a 32-bit argument or field can carry.
pub const MAX_LEN: usize = 0xffff_ffff;

/// The trailer `(body_ptr, body_len, status)`, three little-endian 32-bit fields.
pub open spec fn trailer(body_ptr: i32, body_len: i32, status: u16) -> Seq<u8> {
    spec_u32_to_le_bytes(i32_bits(body_ptr)) + spec_u32_to_le_bytes(i32_bits(body_len))
        + spec_u32_to_le_bytes(status as u32)
}

/// The three fields that a 12-byte trailer holds.
pub open spec fn trailer_fields(t: Seq<u8>) -> (i32, i32, i32) {
    (
        bits_i32(spec_u32_from_le_bytes(t.subrange(0, 4))),
        bits_i32(spec_u32_from_le_bytes(t.subrange(4, 8))),
        bits_i32(spec_u32_from_le_bytes(t.subrange(8, 12))),
    )
}

/// The trailer that a host callback hands back for a reply body written at
/// `body_ptr`: its length field holds the body's length as a 32-bit pattern.
pub fn reply_trailer(body_ptr: i32, body: &Vec<u8>, status: u16) -> (r: Vec<u8>)
    requires
        body@.len() <= MAX_LEN,
    ensures
        r@ == trailer(body_ptr, len_bits(body@.len() as usize), status),
        r@.len() == TRAILER_LEN,
        i32_bits(len_bits(body@.len() as usize)) == body@.len(),
{
    let len: i32 = #[verifier::truncate] (body.len() as i32);
    proof {
        let n = body@.len() as usize;
        assert(n <= 0xffff_ffffusize ==> (#[verifier::truncate] ((#[verifier::truncate] (n as i32)) as u32)) as usize == n) by (bit_vector);
    }
    let mut r = u32_to_le_bytes(#[verifier::truncate] (body_ptr as u32));
    let mut b = u32_to_le_bytes(#[verifier::truncate] (len as u32));
    let mut c = u32_to_le_bytes(status as u32);
    r.append(&mut b);
    r.append(&mut c);
    proof {
        assert(i32_bits(body_ptr) == #[verifier::truncate] (body_ptr as u32));
    }
    r
}

/// Reads `(body_ptr, body_len, status)` back from a trailer.
pub fn parse_reply_trailer(whole: &Vec<u8>) -> (r: Option<(i32, i32, i32)>)
    ensures
        whole@.len() == TRAILER_LEN ==> r == Some(trailer_fields(whole@)),
        whole@.len() != TRAILER_LEN ==> r is None,
{
    if whole.len() != TRAILER_LEN {
        return None;
    }
    let ptr = read_field(whole, 0);
    let len = read_field(whole, 4);
    let status = read_field(whole, 8);
    Some((
        #[verifier::truncate] (ptr as i32),
        #[verifier::truncate] (len as i32),
        #[verifier::truncate] (status as i32),
    ))
}

/// A trailer read back gives the pointer, the body length and the status that
/// were written into it.
pub proof fn lemma_trailer_round_trip(body_ptr: i32, body_len: i32, status: u16)
    ensures
        trailer(body_ptr, body_len, status).len() == TRAILER_LEN,
        trailer_fields(trailer(body_ptr, body_len, status)) == (body_ptr, body_len, status as i32),
{
    lemma_auto_spec_u32_to_from_le_bytes();
    let t = trailer(body_ptr, body_len, status);
    assert(t.subrange(0, 4) =~= spec_u32_to_le_bytes(i32_bits(body_ptr)));
    assert(t.subrange(4, 8) =~= spec_u32_to_le_bytes(i32_bits(body_len)));
    assert(t.subrange(8, 12) =~= spec_u32_to_le_bytes(status as u32));
    assert(bits_i32(i32_bits(body_ptr)) == body_ptr) by (bit_vector);
    assert(bits_i32(i32_bits(body_len)) == body_len) by (bit_vector);
    let s = status as u32;
    assert(s < 0x10000 ==> bits_i32(s) == s as i32) by (bit_vector);
}

// ---------------------------------------------------------------- callback arguments

/// A buffer in the guest's memory: where it starts and how many bytes it holds.
#[derive(Clone, Copy, Debug, PartialEq, Eq, Structural)]
pub struct GuestBuffer {
    pub ptr: i32,
    pub len: usize,
}

pub open spec fn fits_field(b: GuestBuffer) -> bool {
    b.len <= MAX_LEN
}

/// An optional argument: an empty buffer travels as the pair `(0, 0)`.
pub open spec fn optional_arg(b: GuestBuffer) -> (i32, i32) {
    if b.len == 0 {
        (0, 0)
    } else {
        (b.ptr, len_bits(b.len))
    }
}

pub open spec fn params_of(
    url: GuestBuffer,
    method: RequestMethod,
    headers: GuestBuffer,
    body: GuestBuffer,
) -> (i32, i32, u8, i32, i32, i32, i32) {
    (
        url.ptr,
        len_bits(url.len),
        byte_of_method(method),
        headers.ptr,
        len_bits(headers.len),
        optional_arg(body).0,
        optional_arg(body).1,
    )
}

fn optional_pair(b: GuestBuffer) -> (r: (i32, i32))
    requires
        fits_field(b),
    ensures
        r == optional_arg(b),
{
    if b.len == 0 {
        (0, 0)
    } else {
        (b.ptr, #[verifier::truncate] (b.len as i32))
    }
}

/// The seven arguments of `send_request` and `send_async_request`, each
/// length as its 32-bit pattern. Fails only for a buffer longer than
/// `MAX_LEN`, which a wasm32 guest cannot hold.
pub fn parse_params(
    url: GuestBuffer,
    method: RequestMethod,
    headers: GuestBuffer,
    body: GuestBuffer,
) -> (r: Result<(i32, i32, u8, i32, i32, i32, i32), String>)
    ensures
        r is Ok <==> fits_field(url) && fits_field(headers) && fits_field(body),
        r matches Ok(p) ==> p == params_of(url, method, headers, body),
{
    if url.len > MAX_LEN || headers.len > MAX_LEN || body.len > MAX_LEN {
        return Err("buffer too large for a length field".to_string());
    }
    let (body_ptr, body_len) = optional_pair(body);
    Ok((
        url.ptr,
        #[verifier::truncate] (url.len as i32),
        method.to_byte(),
        headers.ptr,
        #[verifier::truncate] (headers.len as i32),
        body_ptr,
        body_len,
    ))
}

/// The nine arguments of `send_fileparts_request` and
/// `send_async_fileparts_request`: those of `parse_params`, then the encoded
/// file parts.
pub fn parse_fileparts_params(
    url: GuestBuffer,
    method: RequestMethod,
    headers: GuestBuffer,
    body: GuestBuffer,
    fileparts: GuestBuffer,
) -> (r: Result<(i32, i32, u8, i32, i32, i32, i32, i32, i32), String>)
    ensures
        r is Ok <==> fits_field(url) && fits_field(headers) && fits_field(body) && fits_field(
            fileparts,
        ),
        r matches Ok(p) ==> {
            let q = params_of(url, method, headers, body);
            p == (q.0, q.1, q.2, q.3, q.4, q.5, q.6, optional_arg(fileparts).0, optional_arg(
                fileparts,
            ).1)
        },
{
    if fileparts.len > MAX_LEN {
        return Err("buffer too large for a length field".to_string());
    }
    let (fileparts_ptr, fileparts_len) = optional_pair(fileparts);
    match parse_params(url, method, headers, body) {
        Ok((url_ptr, url_len, method, headers_ptr, headers_len, body_ptr, body_len)) => Ok(
            (
                url_ptr,
                url_len,
                method,
                headers_ptr,
                headers_len,
                body_ptr,
                body_len,
                fileparts_ptr,
                fileparts_len,
            ),
        ),
        Err(e) => Err(e),
    }
}

} // verus!
