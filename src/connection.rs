//! Decisions of the connection driver: whether the client wants the
//! connection kept, which headers close or keep it, whether another request
//! is read, and which response answers a request that could not be read.
use vstd::prelude::*;
use vstd::string::StringExecFns;
use vstd::string::StrSliceExecFns;
use crate::error::{carried_message, ApiError};
use crate::response::{
    header_view, headers_with, ContentNotSupported, ContentTypeRequired, HttpResponse, InternalServerError,
    InvalidContentLength, MethodNotAllowed, MethodNotSupported, Notfound404, PayloadTooLarge, ReaquestNotHttp,
    RequestTimeout, UTF8Error,
};
use crate::text::{decimal, decimal_of};
use crate::utils::{str_eq, HTTPCode, Protocall};

verus! {

/// A character with ASCII upper-case letters made lower-case.
pub open spec fn ascii_lower_char(c: char) -> char {
    if 'A' <= c && c <= 'Z' {
        ((c as u8) + 32) as char
    } else {
        c
    }
}

/// A text with ASCII upper-case letters made lower-case.
pub open spec fn ascii_lowercase(s: Seq<char>) -> Seq<char> {
    s.map_values(|c: char| ascii_lower_char(c))
}

/// Whether `s`, with ASCII letters made lower-case, equals `lower`.
pub fn ascii_lower_eq(s: &str, lower: &str) -> (r: bool)
    ensures
        r == (ascii_lowercase(s@) == lower@),
{
    let n = s.unicode_len();
    if n != lower.unicode_len() {
        proof {
            assert(ascii_lowercase(s@).len() != lower@.len());
        }
        return false;
    }
    let mut i: usize = 0;
    while i < n
        invariant
            n == s@.len(),
            n == lower@.len(),
            i <= n,
            forall|j: int| 0 <= j < i ==> ascii_lower_char(#[trigger] s@[j]) == lower@[j],
        decreases n - i,
    {
        let c = s.get_char(i);
        let l = if 'A' <= c && c <= 'Z' {
            ((c as u8) + 32) as char
        } else {
            c
        };
        if l != lower.get_char(i) {
            proof {
                assert(ascii_lowercase(s@)[i as int] != lower@[i as int]);
            }
            return false;
        }
        i = i + 1;
    }
    proof {
        assert(ascii_lowercase(s@) =~= lower@);
    }
    true
}

/// The value of the first header named `k`.
pub open spec fn header_lookup(h: Seq<(Seq<char>, Seq<char>)>, k: Seq<char>) -> Option<Seq<char>>
    decreases h.len(),
{
    if h.len() == 0 {
        None
    } else if h[0].0 == k {
        Some(h[0].1)
    } else {
        header_lookup(h.drop_first(), k)
    }
}

/// The value of the first header named `key`.
pub fn header_value<'a>(headers: &'a Vec<(String, String)>, key: &str) -> (r: Option<&'a String>)
    ensures
        r matches Some(v) ==> header_lookup(header_view(headers@), key@) == Some(v@),
        r is None ==> header_lookup(header_view(headers@), key@) is None,
{
    let ghost h = header_view(headers@);
    let mut i: usize = 0;
    proof {
        assert(h.subrange(0, h.len() as int) =~= h);
    }
    while i < headers.len()
        invariant
            i <= headers@.len(),
            h == header_view(headers@),
            header_lookup(h, key@) == header_lookup(h.subrange(i as int, h.len() as int), key@),
        decreases headers@.len() - i,
    {
        proof {
            assert(h.subrange(i as int, h.len() as int).drop_first() =~= h.subrange(i + 1, h.len() as int));
        }
        if str_eq(headers[i].0.as_str(), key) {
            return Some(&headers[i].1);
        }
        i = i + 1;
    }
    None
}

/// Whether the client asks to keep the connection: on the first request,
/// a `Connection: keep-alive` header (in any case), or HTTP/1.1 unless it
/// sends `Connection: close` (in any case); on later requests, always.
pub open spec fn client_wants_keep_alive(first_req: bool, connection: Option<Seq<char>>, protocol: Protocall) -> bool {
    if !first_req {
        true
    } else {
        match connection {
            Some(v) => ascii_lowercase(v) == "keep-alive"@ || (protocol == Protocall::HTTP1_1
                && ascii_lowercase(v) != "close"@),
            None => protocol == Protocall::HTTP1_1,
        }
    }
}

/// Whether the client asks to keep the connection open.
pub fn client_keep_alive(first_req: bool, headers: &Vec<(String, String)>, protocol: Protocall) -> (r: bool)
    ensures
        r == client_wants_keep_alive(first_req, header_lookup(header_view(headers@), "Connection"@), protocol),
{
    if !first_req {
        return true;
    }
    match header_value(headers, "Connection") {
        Some(v) => ascii_lower_eq(v.as_str(), "keep-alive") || (protocol == Protocall::HTTP1_1
            && !ascii_lower_eq(v.as_str(), "close")),
        None => protocol == Protocall::HTTP1_1,
    }
}

/// The value of the `Keep-Alive` header.
pub open spec fn keep_alive_value(timeout_s: u64, max: u8) -> Seq<char> {
    "timeout="@ + decimal_of(timeout_s as nat) + ", max="@ + decimal_of(max as nat)
}

/// The headers of a handler's response once the driver has added its own:
/// `Host`, then either the keep-alive pair (on the first request of a
/// response that keeps the connection) or `Connection: close` (on a
/// response that does not).
pub open spec fn finished_headers(
    h: Seq<(Seq<char>, Seq<char>)>,
    host: Seq<char>,
    keep_alive: bool,
    first_req: bool,
    timeout_s: u64,
    max: u8,
) -> Seq<(Seq<char>, Seq<char>)> {
    let h1 = headers_with(h, "Host"@, host);
    if keep_alive && first_req {
        headers_with(headers_with(h1, "Connection"@, "keep-alive"@), "Keep-Alive"@, keep_alive_value(timeout_s, max))
    } else if keep_alive {
        h1
    } else {
        headers_with(h1, "Connection"@, "close"@)
    }
}

/// Adds the driver's headers to a handler's response; returns whether the
/// server keeps the connection.
pub fn finish_response(resp: &mut HttpResponse, host: &str, first_req: bool, keep_alive_timeout_s: u64, keep_alive_max: u8) -> (r: bool)
    ensures
        r == old(resp).keep_alive,
        header_view(final(resp).headers@) == finished_headers(
            header_view(old(resp).headers@),
            host@,
            old(resp).keep_alive,
            first_req,
            keep_alive_timeout_s,
            keep_alive_max,
        ),
        final(resp).code == old(resp).code,
        final(resp).content == old(resp).content,
        final(resp).file_response == old(resp).file_response,
        final(resp).file_content_location == old(resp).file_content_location,
        final(resp).keep_alive == old(resp).keep_alive,
{
    resp.add_header("Host", host);
    if resp.keep_alive && first_req {
        resp.add_header("Connection", "keep-alive");
        let value = String::from_str("timeout=").concat(decimal(keep_alive_timeout_s).as_str()).concat(
            ", max=",
        ).concat(decimal(keep_alive_max as u64).as_str());
        resp.add_header("Keep-Alive", value.as_str());
        true
    } else if resp.keep_alive {
        true
    } else {
        resp.add_header("Connection", "close");
        false
    }
}

/// Whether the driver reads another request on the connection.
pub fn keep_going(keep_alive_count_left: u8, client_keep_alive: bool, server_keep_alive: bool) -> (r: bool)
    ensures
        r == (keep_alive_count_left > 0 && client_keep_alive && server_keep_alive),
{
    keep_alive_count_left > 0 && client_keep_alive && server_keep_alive
}

/// The message carried by an error, or the empty text.
pub open spec fn message_or_empty(e: ApiError) -> Seq<char> {
    match carried_message(e) {
        Some(m) => m@,
        None => Seq::empty(),
    }
}

/// The status that answers a request that failed with `e`; none for a
/// failure after which the connection is simply closed.
pub open spec fn error_status(e: ApiError) -> Option<HTTPCode> {
    match e {
        ApiError::RequestBodyNotRead(_) => Some(HTTPCode::InternalServerError),
        ApiError::InvalidContentLength(_) => Some(HTTPCode::LengthRequired),
        ApiError::ContentNotSupported(_) => Some(HTTPCode::UnsupportedMediaType),
        ApiError::RequestTimedout(_) => Some(HTTPCode::RequestTimeout),
        ApiError::RequestDataNotUTF8(_) => Some(HTTPCode::PayloadTooLarge),
        ApiError::ContentTypeRequired(_) => Some(HTTPCode::BadRequest),
        ApiError::MethodNotAllowed(_) => Some(HTTPCode::MethodNotAllowed),
        ApiError::MethodNotSupported(_) => Some(HTTPCode::MethodNotAllowed),
        ApiError::ResourceNotFound(_) => Some(HTTPCode::NotFound),
        ApiError::PayloadTooLarge(_) => Some(HTTPCode::PayloadTooLarge),
        ApiError::RequestNotHttp(_) => Some(HTTPCode::PayloadTooLarge),
        ApiError::CannotWriteDataToDisk(_) => Some(HTTPCode::InternalServerError),
        ApiError::RequestReadError(_) => Some(HTTPCode::InternalServerError),
        _ => None,
    }
}

/// The text of the response that answers a request that failed with `e`.
pub open spec fn error_body(e: ApiError, max_payload_in_bytes: nat) -> Seq<char> {
    match e {
        ApiError::RequestBodyNotRead(_) => "Error happend while reading body."@,
        ApiError::InvalidContentLength(_) => "Provide a valid content length header."@,
        ApiError::ContentNotSupported(_) => "Unsupported content/payload type."@,
        ApiError::RequestTimedout(_) => "Request timed out"@,
        ApiError::RequestDataNotUTF8(_) => "Request message metadata should be UTF-8 encoding complient."@,
        ApiError::ContentTypeRequired(_) => "Provide a content type header with post requests."@,
        ApiError::PayloadTooLarge(_) => crate::response::payload_too_large_text(max_payload_in_bytes / 1048576),
        ApiError::CannotWriteDataToDisk(_) => "Internal server error."@,
        ApiError::RequestReadError(_) => "Error while reading request metadata."@,
        _ => message_or_empty(e),
    }
}

/// The response that answers a request that failed with `e`, with `Host`
/// set; none where the connection is simply closed. Every such response
/// closes the connection.
pub fn error_response(e: &ApiError, host: &str, max_payload_in_bytes: usize) -> (r: Option<HttpResponse>)
    ensures
        r is None <==> error_status(*e) is None,
        r matches Some(resp) ==> error_status(*e) == Some(resp.code) && !resp.keep_alive
            && header_lookup(header_view(resp.headers@), "Host"@) == Some(host@),
        r matches Some(resp) ==> (resp.content matches Some(c) && c@ == error_body(*e, max_payload_in_bytes as nat)),
{
    let empty = String::new();
    let msg = match e.message() {
        Some(m) => m,
        None => &empty,
    };
    let resp = match e {
        ApiError::RequestBodyNotRead(_) => InternalServerError("Error happend while reading body."),
        ApiError::InvalidContentLength(_) => InvalidContentLength(),
        ApiError::ContentNotSupported(_) => ContentNotSupported(),
        ApiError::RequestTimedout(_) => RequestTimeout(),
        ApiError::RequestDataNotUTF8(_) => UTF8Error(),
        ApiError::ContentTypeRequired(_) => ContentTypeRequired(),
        ApiError::MethodNotAllowed(_) => MethodNotAllowed(msg.as_str()),
        ApiError::MethodNotSupported(_) => MethodNotSupported(msg.as_str()),
        ApiError::ResourceNotFound(_) => Notfound404(msg.as_str()),
        ApiError::PayloadTooLarge(_) => PayloadTooLarge(max_payload_in_bytes / 1048576),
        ApiError::RequestNotHttp(_) => ReaquestNotHttp(msg.as_str()),
        ApiError::CannotWriteDataToDisk(_) => InternalServerError("Internal server error."),
        ApiError::RequestReadError(_) => InternalServerError("Error while reading request metadata."),
        _ => {
            return None;
        },
    };
    let mut resp = resp;
    let ghost h = header_view(resp.headers@);
    resp.add_header("Host", host);
    proof {
        lemma_lookup_after_set(h, "Host"@, host@);
    }
    Some(resp)
}

/// After a header is set, looking it up gives the value it was set to.
pub proof fn lemma_lookup_after_set(h: Seq<(Seq<char>, Seq<char>)>, k: Seq<char>, v: Seq<char>)
    ensures
        header_lookup(headers_with(h, k, v), k) == Some(v),
    decreases h.len(),
{
    if h.len() > 0 && h[0].0 != k {
        lemma_lookup_after_set(h.drop_first(), k, v);
        assert((seq![h[0]] + headers_with(h.drop_first(), k, v)).drop_first() =~= headers_with(h.drop_first(), k, v));
    }
}

} // verus!
