//! Responses: building them, their header block, the ETag check and the
//! decisions of the write loop that sends them.
use vstd::prelude::*;
use vstd::string::StringExecFns;
use vstd::string::StringSliceAdditionalSpecFns;
use crate::text::{decimal, decimal_of};
use crate::utils::{
    content_type_line, known_status, protocol_name, reason_of, status_number, str_eq, ContentType,
    FileType, HTTPCode, Protocall, content_of_file,
};

verus! {

/// Relies on `chrono::Utc::now` and chrono's strftime formatting: the
/// current UTC time in the form of RFC 1123, such as
/// `Sun, 06 Nov 1994 08:49:37 GMT`. It depends on the clock, so only its
/// form is stated: the format writes names, digits, spaces, commas and
/// colons, never a line break.
#[verifier::external_body]
fn http_date_now() -> (r: String)
    ensures
        forall|i: int| 0 <= i < r@.len() ==> #[trigger] r@[i] != '\r' && r@[i] != '\n',
{
    chrono::Utc::now().format("%a, %d %b %Y %H:%M:%S GMT").to_string()
}

/// A response, ready to be sent.
pub struct HttpResponse {
    /// Status of the response.
    pub code: HTTPCode,
    /// Kind of the payload.
    pub content_type: ContentType,
    /// Length of the payload in bytes.
    pub content_len: usize,
    /// The payload of a text response.
    pub content: Option<String>,
    /// Whether the payload is a file.
    pub file_response: bool,
    /// Where the file of a file response lies.
    pub file_content_location: Option<String>,
    /// Name under which the file of a file response is offered.
    pub file_name: Option<String>,
    /// Headers, in the order they were first added.
    pub headers: Vec<(String, String)>,
    /// Whether the connection may stay open after this response.
    pub keep_alive: bool,
}

/// Why a response could not be built.
#[derive(Clone, Copy, Debug, PartialEq, Eq, Structural)]
pub enum ResponseError {
    /// The status number names no status of this library.
    UnknownStatus,
}

/// Headers as pairs of character sequences.
pub open spec fn header_view(h: Seq<(String, String)>) -> Seq<(Seq<char>, Seq<char>)> {
    h.map_values(|p: (String, String)| (p.0@, p.1@))
}

/// Headers after setting `k` to `v`: the first header named `k` takes the
/// new value; with none, the header is added at the end.
pub open spec fn headers_with(h: Seq<(Seq<char>, Seq<char>)>, k: Seq<char>, v: Seq<char>) -> Seq<(Seq<char>, Seq<char>)>
    decreases h.len(),
{
    if h.len() == 0 {
        seq![(k, v)]
    } else if h[0].0 == k {
        h.update(0, (k, v))
    } else {
        seq![h[0]] + headers_with(h.drop_first(), k, v)
    }
}

proof fn lemma_headers_with_at(h: Seq<(Seq<char>, Seq<char>)>, k: Seq<char>, v: Seq<char>, i: int)
    requires
        0 <= i <= h.len(),
        forall|j: int| 0 <= j < i ==> h[j].0 != k,
        i < h.len() ==> h[i].0 == k,
    ensures
        i < h.len() ==> headers_with(h, k, v) == h.update(i, (k, v)),
        i == h.len() ==> headers_with(h, k, v) == h.push((k, v)),
    decreases i,
{
    if i > 0 {
        lemma_headers_with_at(h.drop_first(), k, v, i - 1);
        if i < h.len() {
            assert(seq![h[0]] + h.drop_first().update(i - 1, (k, v)) =~= h.update(i, (k, v)));
        } else {
            assert(seq![h[0]] + h.drop_first().push((k, v)) =~= h.push((k, v)));
        }
    } else if h.len() == 0 {
        assert(seq![(k, v)] =~= h.push((k, v)));
    }
}

/// Sets header `key` to `value` in `headers`.
pub fn set_header(headers: &mut Vec<(String, String)>, key: &str, value: &str)
    ensures
        header_view(final(headers)@) == headers_with(header_view(old(headers)@), key@, value@),
{
    let ghost h = header_view(headers@);
    let mut i: usize = 0;
    while i < headers.len()
        invariant
            i <= headers@.len(),
            headers@ == old(headers)@,
            h == header_view(headers@),
            forall|j: int| 0 <= j < i ==> h[j].0 != key@,
        decreases headers@.len() - i,
    {
        if str_eq(headers[i].0.as_str(), key) {
            proof {
                assert(h[i as int].0 == key@);
                lemma_headers_with_at(h, key@, value@, i as int);
            }
            headers.set(i, (String::from_str(key), String::from_str(value)));
            proof {
                assert(header_view(headers@) =~= h.update(i as int, (key@, value@)));
            }
            return;
        }
        i = i + 1;
    }
    proof {
        lemma_headers_with_at(h, key@, value@, i as int);
    }
    headers.push((String::from_str(key), String::from_str(value)));
    proof {
        assert(header_view(headers@) =~= h.push((key@, value@)));
    }
}

/// The header lines, each `Name: value` and a line end.
pub open spec fn headers_text(h: Seq<(Seq<char>, Seq<char>)>) -> Seq<char>
    decreases h.len(),
{
    if h.len() == 0 {
        Seq::empty()
    } else {
        headers_text(h.drop_last()) + h.last().0 + ": "@ + h.last().1 + "\r\n"@
    }
}

/// The status line: version, number and reason phrase.
pub open spec fn status_line(p: Protocall, code: HTTPCode) -> Seq<char> {
    protocol_name(p) + " "@ + decimal_of(status_number(code) as nat) + " "@ + reason_of(code) + "\r\n"@
}

/// The header block of a response sent on `date`: status line, `Date`,
/// the response's headers, its `Content-Type` line, and an empty line.
pub open spec fn head_text(r: HttpResponse, p: Protocall, date: Seq<char>) -> Seq<char> {
    status_line(p, r.code) + "Date: "@ + date + "\r\n"@ + headers_text(header_view(r.headers@))
        + content_type_line(r.content_type) + "\r\n"@
}

/// The entity tag of a file: its modification time in seconds, `@`, and its
/// length in bytes.
pub open spec fn etag_of(mtime: nat, len: nat) -> Seq<char> {
    decimal_of(mtime) + "@"@ + decimal_of(len)
}

/// The outcome of checking an `If-None-Match` value against a file of
/// `len` bytes modified at `mtime`: whether it names the file's current
/// tag, and that tag.
pub open spec fn etag_check(received: Option<Seq<char>>, len: nat, mtime: nat) -> (bool, Seq<char>) {
    (received == Some(etag_of(mtime, len)), etag_of(mtime, len))
}

/// A tag sent with a file, sent back while the file is unchanged, is
/// recognised, and the `304` response carries the same tag.
pub proof fn lemma_etag_round_trip(len: nat, mtime: nat, p: Protocall, date: Seq<char>)
    ensures
        !etag_check(None, len, mtime).0,
        etag_check(Some(etag_check(None, len, mtime).1), len, mtime).0,
        etag_check(Some(etag_check(None, len, mtime).1), len, mtime).1 == etag_check(None, len, mtime).1,
        status_number(HTTPCode::NotModified) == 304,
        not_modified_text(p, date, etag_check(Some(etag_check(None, len, mtime).1), len, mtime).1)
            == status_line(p, HTTPCode::NotModified) + "Date: "@ + date + "\r\n"@ + "Etag: "@
            + etag_check(None, len, mtime).1 + "\r\n"@ + "\r\n"@,
{
}

/// The whole of a `304 Not Modified` response: status line, `Date`, `Etag`
/// and an empty line.
pub open spec fn not_modified_text(p: Protocall, date: Seq<char>, etag: Seq<char>) -> Seq<char> {
    status_line(p, HTTPCode::NotModified) + "Date: "@ + date + "\r\n"@ + "Etag: "@ + etag + "\r\n"@
        + "\r\n"@
}

/// A text response with the given status, payload and `Content-Length`.
pub open spec fn is_text_response(r: HttpResponse, code: HTTPCode, content: Seq<char>, len: nat, content_type: ContentType, keep_alive: bool) -> bool {
    &&& r.code == code
    &&& r.content_type == content_type
    &&& r.content_len == len
    &&& r.content matches Some(c) && c@ == content
    &&& !r.file_response
    &&& r.file_content_location is None
    &&& r.file_name is None
    &&& header_view(r.headers@) == seq![("Content-Length"@, decimal_of(len))]
    &&& r.keep_alive == keep_alive
}

impl HttpResponse {
    /// A response with the given parts and no headers.
    pub fn new(
        resp_code: HTTPCode,
        content_type: ContentType,
        content_len: usize,
        content: Option<String>,
        file_response: bool,
        file_content_location: Option<String>,
        filename: Option<String>,
        keep_alive: bool,
    ) -> (r: HttpResponse)
        ensures
            r.code == resp_code,
            r.content_type == content_type,
            r.content_len == content_len,
            r.content == content,
            r.file_response == file_response,
            r.file_content_location == file_content_location,
            r.file_name == filename,
            r.headers@.len() == 0,
            r.keep_alive == keep_alive,
    {
        HttpResponse {
            code: resp_code,
            content_type,
            content_len,
            content,
            file_response,
            file_content_location,
            file_name: filename,
            headers: Vec::new(),
            keep_alive,
        }
    }

    /// Sets header `key` to `value`, replacing the value of a header of
    /// that name.
    pub fn add_header(&mut self, key: &str, value: &str)
        ensures
            header_view(final(self).headers@) == headers_with(header_view(old(self).headers@), key@, value@),
            final(self).code == old(self).code,
            final(self).content_type == old(self).content_type,
            final(self).content_len == old(self).content_len,
            final(self).content == old(self).content,
            final(self).file_response == old(self).file_response,
            final(self).file_content_location == old(self).file_content_location,
            final(self).file_name == old(self).file_name,
            final(self).keep_alive == old(self).keep_alive,
    {
        set_header(&mut self.headers, key, value);
    }

    /// The entity tag of a file of `file_len` bytes modified at
    /// `last_updated`, and whether `recieved_etag` equals it.
    pub fn validate_etag(file_len: u64, last_updated: u64, recieved_etag: Option<String>) -> (r: (bool, String))
        ensures
            r.1@ == etag_of(last_updated as nat, file_len as nat),
            r.0 == (recieved_etag matches Some(e) && e@ == r.1@),
            (r.0, r.1@) == etag_check(
                match recieved_etag {
                    Some(e) => Some(e@),
                    None => None,
                },
                file_len as nat,
                last_updated as nat,
            ),
    {
        let mut cur_etag = decimal(last_updated);
        cur_etag.append("@");
        cur_etag.append(decimal(file_len).as_str());
        match recieved_etag {
            None => (false, cur_etag),
            Some(e) => (e == cur_etag, cur_etag),
        }
    }

    /// The header block of this response, with `date` as its `Date`.
    pub fn head_block(&self, protocall: Protocall, date: &str) -> (r: String)
        ensures
            r@ == head_text(*self, protocall, date@),
    {
        let mut resp = String::from_str(protocall.to_str());
        resp.append(" ");
        resp.append(decimal(self.code.code() as u64).as_str());
        resp.append(" ");
        resp.append(self.code.get_msg());
        resp.append("\r\n");
        resp.append("Date: ");
        resp.append(date);
        resp.append("\r\n");
        let ghost start = resp@;
        let ghost h = header_view(self.headers@);
        let mut i: usize = 0;
        while i < self.headers.len()
            invariant
                i <= self.headers@.len(),
                h == header_view(self.headers@),
                resp@ == start + headers_text(h.subrange(0, i as int)),
            decreases self.headers@.len() - i,
        {
            resp.append(self.headers[i].0.as_str());
            resp.append(": ");
            resp.append(self.headers[i].1.as_str());
            resp.append("\r\n");
            proof {
                assert(h.subrange(0, i + 1).drop_last() =~= h.subrange(0, i as int));
            }
            i = i + 1;
        }
        proof {
            assert(h.subrange(0, i as int) =~= h);
        }
        resp.append(self.content_type.get_content_type_header());
        resp.append("\r\n");
        proof {
            assert(resp@ =~= head_text(*self, protocall, date@));
        }
        resp
    }

    /// The header block of this response, dated now.
    pub fn to_string(&self, protocall: Protocall) -> (r: String)
        ensures
            exists|date: Seq<char>| r@ == head_text(*self, protocall, date),
    {
        let date = http_date_now();
        self.head_block(protocall, date.as_str())
    }

    /// The whole text of this response when its payload is inline: header
    /// block, then payload.
    pub fn inline_text(&self, protocall: Protocall, date: &str) -> (r: Option<String>)
        ensures
            self.content is None ==> r is None,
            self.content matches Some(c) ==> r matches Some(t) && t@ == head_text(*self, protocall, date@) + c@,
    {
        match &self.content {
            None => None,
            Some(c) => {
                let mut t = self.head_block(protocall, date);
                t.append(c.as_str());
                Some(t)
            },
        }
    }
}

/// The whole text of a `304 Not Modified` response.
pub fn not_modified_block(protocall: Protocall, date: &str, etag: &str) -> (r: String)
    ensures
        r@ == not_modified_text(protocall, date@, etag@),
{
    let mut resp = String::from_str(protocall.to_str());
    resp.append(" ");
    resp.append(decimal(HTTPCode::NotModified.code() as u64).as_str());
    resp.append(" ");
    resp.append(HTTPCode::NotModified.get_msg());
    resp.append("\r\n");
    resp.append("Date: ");
    resp.append(date);
    resp.append("\r\n");
    resp.append("Etag: ");
    resp.append(etag);
    resp.append("\r\n");
    resp.append("\r\n");
    proof {
        assert(resp@ =~= not_modified_text(protocall, date@, etag@));
    }
    resp
}

/// The whole text of a `304 Not Modified` response carrying `etag`, dated
/// now.
pub fn not_modified_now(protocall: Protocall, etag: &str) -> (r: String)
    ensures
        exists|date: Seq<char>| r@ == not_modified_text(protocall, date, etag@),
{
    let date = http_date_now();
    not_modified_block(protocall, date.as_str(), etag)
}

/// A text response with status `code`, payload `content` and its
/// `Content-Length` header.
pub fn text_response(code: HTTPCode, content: &str, content_type: ContentType, keep_alive: bool) -> (r: HttpResponse)
    ensures
        is_text_response(r, code, content@, content.len() as nat, content_type, keep_alive),
{
    let content_len = content.len();
    let mut resp = HttpResponse::new(
        code,
        content_type,
        content_len,
        Some(String::from_str(content)),
        false,
        None,
        None,
        keep_alive,
    );
    resp.add_header("Content-Length", decimal(content_len as u64).as_str());
    proof {
        assert(header_view(resp.headers@) =~= seq![("Content-Length"@, decimal_of(content_len as nat))]) by {
            assert(header_view(Seq::<(String, String)>::empty()) =~= Seq::<(Seq<char>, Seq<char>)>::empty());
        }
    }
    resp
}

/// A text response with status number `http_code`, refused when the number
/// names no status.
pub fn create_response(content: &str, http_code: u16, content_type: ContentType, keep_alive: bool) -> (r: Result<HttpResponse, ResponseError>)
    ensures
        r is Err <==> !known_status(http_code),
        r matches Ok(resp) ==> status_number(resp.code) == http_code && is_text_response(
            resp,
            resp.code,
            content@,
            content.len() as nat,
            content_type,
            keep_alive,
        ),
{
    match HTTPCode::from_u16(http_code) {
        Some(c) => Ok(text_response(c, content, content_type, keep_alive)),
        None => Err(ResponseError::UnknownStatus),
    }
}

/// What could be learnt of a file before answering with it.
pub enum FileProbe {
    /// The file could not be opened.
    Missing,
    /// The file opened, but its metadata could not be read.
    Unreadable,
    /// The file opened and holds this many bytes.
    Found(usize),
}

/// A response offering the file at `file_location`, of `file_type`, as a
/// download named `file_name`. A file that could not be opened gives a
/// `404`; one whose metadata could not be read gives a `500`.
pub fn send_file(
    file_location: &str,
    file_name: Option<String>,
    file_type: FileType,
    http_code: u16,
    keep_alive: bool,
    probe: FileProbe,
) -> (r: Result<HttpResponse, ResponseError>)
    ensures
        r is Err <==> !known_status(http_code),
        known_status(http_code) && probe is Missing ==> (r matches Ok(resp) && is_text_response(
            resp,
            HTTPCode::NotFound,
            "File doesn't exist or has been deleted."@,
            "File doesn't exist or has been deleted.".len() as nat,
            ContentType::TEXT,
            false,
        )),
        known_status(http_code) && probe is Unreadable ==> (r matches Ok(resp) && is_text_response(
            resp,
            HTTPCode::InternalServerError,
            ""@,
            "".len() as nat,
            ContentType::TEXT,
            false,
        )),
        known_status(http_code) ==> (probe matches FileProbe::Found(len) ==> r matches Ok(resp) && {
            &&& status_number(resp.code) == http_code
            &&& resp.file_response
            &&& resp.content is None
            &&& resp.content_type == content_of_file(file_type)
            &&& resp.content_len == len
            &&& resp.file_content_location matches Some(l) && l@ == file_location@
            &&& resp.file_name == file_name
            &&& resp.keep_alive == keep_alive
            &&& header_view(resp.headers@) == (match file_name {
                Some(n) => seq![
                    ("Content-Length"@, decimal_of(len as nat)),
                    ("Content-Disposition"@, "attachment; filename=\""@ + n@ + "\""@),
                ],
                None => seq![("Content-Length"@, decimal_of(len as nat))],
            })
        }),
{
    let resp_code = match HTTPCode::from_u16(http_code) {
        Some(c) => c,
        None => {
            return Err(ResponseError::UnknownStatus);
        },
    };
    let file_len = match probe {
        FileProbe::Missing => {
            return Ok(Notfound404("File doesn't exist or has been deleted."));
        },
        FileProbe::Unreadable => {
            return Ok(InternalServerError(""));
        },
        FileProbe::Found(len) => len,
    };
    let mut resp = HttpResponse::new(
        resp_code,
        file_type.to_content_type(),
        file_len,
        None,
        true,
        Some(String::from_str(file_location)),
        file_name,
        keep_alive,
    );
    resp.add_header("Content-Length", decimal(file_len as u64).as_str());
    let ghost first = header_view(resp.headers@);
    proof {
        assert(header_view(Seq::<(String, String)>::empty()) =~= Seq::<(Seq<char>, Seq<char>)>::empty());
        assert(first =~= seq![("Content-Length"@, decimal_of(file_len as nat))]);
    }
    match &resp.file_name {
        Some(n) => {
            let mut val = String::from_str("attachment; filename=\"");
            val.append(n.as_str());
            val.append("\"");
            let ghost nv = n@;
            resp.add_header("Content-Disposition", val.as_str());
            proof {
                reveal_strlit("Content-Length");
                reveal_strlit("Content-Disposition");
                assert(first[0].0[8] != "Content-Disposition"@[8]);
                assert(first.drop_first() =~= Seq::<(Seq<char>, Seq<char>)>::empty());
                let kv = ("Content-Disposition"@, "attachment; filename=\""@ + nv + "\""@);
                assert(headers_with(first.drop_first(), kv.0, kv.1) == seq![kv]);
                assert(headers_with(first, kv.0, kv.1) =~= seq![first[0], kv]);
                assert(header_view(resp.headers@) =~= seq![
                    ("Content-Length"@, decimal_of(file_len as nat)),
                    ("Content-Disposition"@, "attachment; filename=\""@ + nv + "\""@),
                ]);
            }
        },
        None => {},
    }
    Ok(resp)
}

/// A `404` text response carrying `msg`.
pub fn Notfound404(msg: &str) -> (r: HttpResponse)
    ensures
        is_text_response(r, HTTPCode::NotFound, msg@, msg.len() as nat, ContentType::TEXT, false),
{
    text_response(HTTPCode::NotFound, msg, ContentType::TEXT, false)
}

/// The `411` response to an unreadable `Content-Length`.
pub fn InvalidContentLength() -> (r: HttpResponse)
    ensures
        is_text_response(r, HTTPCode::LengthRequired, "Provide a valid content length header."@, "Provide a valid content length header.".len() as nat, ContentType::TEXT, false),
{
    let msg = "Provide a valid content length header.";
    text_response(HTTPCode::LengthRequired, msg, ContentType::TEXT, false)
}

/// The `400` response to a body without `Content-Type`.
pub fn ContentTypeRequired() -> (r: HttpResponse)
    ensures
        is_text_response(r, HTTPCode::BadRequest, "Provide a content type header with post requests."@, "Provide a content type header with post requests.".len() as nat, ContentType::TEXT, false),
{
    let msg = "Provide a content type header with post requests.";
    text_response(HTTPCode::BadRequest, msg, ContentType::TEXT, false)
}

/// The `415` response to an unknown media type.
pub fn ContentNotSupported() -> (r: HttpResponse)
    ensures
        is_text_response(r, HTTPCode::UnsupportedMediaType, "Unsupported content/payload type."@, "Unsupported content/payload type.".len() as nat, ContentType::TEXT, false),
{
    let msg = "Unsupported content/payload type.";
    text_response(HTTPCode::UnsupportedMediaType, msg, ContentType::TEXT, false)
}

/// The `405` response to a method that the route does not allow.
pub fn MethodNotAllowed(msg: &str) -> (r: HttpResponse)
    ensures
        is_text_response(r, HTTPCode::MethodNotAllowed, msg@, msg.len() as nat, ContentType::TEXT, false),
{
    text_response(HTTPCode::MethodNotAllowed, msg, ContentType::TEXT, false)
}

/// The `405` response to a method that the server does not know.
pub fn MethodNotSupported(msg: &str) -> (r: HttpResponse)
    ensures
        is_text_response(r, HTTPCode::MethodNotAllowed, msg@, msg.len() as nat, ContentType::TEXT, false),
{
    text_response(HTTPCode::MethodNotAllowed, msg, ContentType::TEXT, false)
}

/// The `408` response to a request that stalled.
pub fn RequestTimeout() -> (r: HttpResponse)
    ensures
        is_text_response(r, HTTPCode::RequestTimeout, "Request timed out"@, "Request timed out".len() as nat, ContentType::TEXT, false),
{
    text_response(HTTPCode::RequestTimeout, "Request timed out", ContentType::TEXT, false)
}

/// The text of the `413` response for a limit of `size` mebibytes.
pub open spec fn payload_too_large_text(size: nat) -> Seq<char> {
    "Payload too large. Size must be less than "@ + decimal_of(size) + " MB"@
}

/// The `413` response to a body larger than `size` mebibytes.
pub fn PayloadTooLarge(size: usize) -> (r: HttpResponse)
    ensures
        r.content_len == vstd::utf8::encode_utf8(payload_too_large_text(size as nat)).len() as usize,
        is_text_response(r, HTTPCode::PayloadTooLarge, payload_too_large_text(size as nat), r.content_len as nat, ContentType::TEXT, false),
{
    let mut msg = String::from_str("Payload too large. Size must be less than ");
    msg.append(decimal(size as u64).as_str());
    msg.append(" MB");
    text_response(HTTPCode::PayloadTooLarge, msg.as_str(), ContentType::TEXT, false)
}

/// The `413` response to a request that is not UTF-8.
pub fn UTF8Error() -> (r: HttpResponse)
    ensures
        is_text_response(r, HTTPCode::PayloadTooLarge, "Request message metadata should be UTF-8 encoding complient."@, "Request message metadata should be UTF-8 encoding complient.".len() as nat, ContentType::TEXT, false),
{
    let msg = "Request message metadata should be UTF-8 encoding complient.";
    text_response(HTTPCode::PayloadTooLarge, msg, ContentType::TEXT, false)
}

/// The `413` response to a request that is not HTTP/1.x.
pub fn ReaquestNotHttp(msg: &str) -> (r: HttpResponse)
    ensures
        is_text_response(r, HTTPCode::PayloadTooLarge, msg@, msg.len() as nat, ContentType::TEXT, false),
{
    text_response(HTTPCode::PayloadTooLarge, msg, ContentType::TEXT, false)
}

/// A `500` text response carrying `msg`.
pub fn InternalServerError(msg: &str) -> (r: HttpResponse)
    ensures
        is_text_response(r, HTTPCode::InternalServerError, msg@, msg.len() as nat, ContentType::TEXT, false),
{
    text_response(HTTPCode::InternalServerError, msg, ContentType::TEXT, false)
}

/// What one attempt to write to the socket gave.
pub enum WriteOutcome {
    /// This many bytes were taken.
    Wrote(usize),
    /// The socket could take nothing now.
    WouldBlock,
    /// Any other failure.
    Failed,
}

/// What the write loop does next.
#[derive(Clone, Copy, Debug, PartialEq, Eq, Structural)]
pub enum WriteStep {
    /// Keep writing from this offset.
    Continue(usize),
    /// Everything has been written.
    Done,
    /// The socket took no byte: give up.
    WriteZero,
    /// The socket stayed blocked past the write timeout: give up.
    TimedOut,
    /// The write failed: give up.
    Failed,
}

/// The next step of the write loop, which has written `written` of `total`
/// bytes and was last able to write `idle_ms` milliseconds ago.
pub fn write_step(written: usize, total: usize, outcome: WriteOutcome, idle_ms: u64, timeout_ms: u64) -> (r: WriteStep)
    requires
        written < total,
    ensures
        outcome matches WriteOutcome::Wrote(n) ==> (if n == 0 {
            r == WriteStep::WriteZero
        } else if n >= total - written {
            r == WriteStep::Done
        } else {
            r == WriteStep::Continue((written + n) as usize)
        }),
        outcome is WouldBlock ==> (if idle_ms > timeout_ms {
            r == WriteStep::TimedOut
        } else {
            r == WriteStep::Continue(written)
        }),
        outcome is Failed ==> r == WriteStep::Failed,
{
    match outcome {
        WriteOutcome::Wrote(n) => {
            if n == 0 {
                WriteStep::WriteZero
            } else if n >= total - written {
                WriteStep::Done
            } else {
                WriteStep::Continue(written + n)
            }
        },
        WriteOutcome::WouldBlock => {
            if idle_ms > timeout_ms {
                WriteStep::TimedOut
            } else {
                WriteStep::Continue(written)
            }
        },
        WriteOutcome::Failed => WriteStep::Failed,
    }
}

/// Where the body of a file response comes from.
#[derive(Clone, Copy, Debug, PartialEq, Eq, Structural)]
pub enum FileSource {
    /// The client's tag is current: a `304` goes out instead.
    NotModified,
    /// The cache holds the file at its current length.
    FromCache,
    /// The file is read from disk, then cached.
    FromDisk,
}

/// Where the body of a file of `file_len` bytes comes from, given whether
/// the client's `If-None-Match` named its current tag and the length of the
/// bytes that the cache holds for it, if any.
pub fn file_source(etag_matches: bool, cached_len: Option<usize>, file_len: u64) -> (r: FileSource)
    ensures
        etag_matches ==> r == FileSource::NotModified,
        !etag_matches && (cached_len matches Some(n) && n as nat == file_len as nat) ==> r == FileSource::FromCache,
        !etag_matches && !(cached_len matches Some(n) && n as nat == file_len as nat) ==> r == FileSource::FromDisk,
{
    if etag_matches {
        return FileSource::NotModified;
    }
    match cached_len {
        Some(n) => {
            if n as u64 == file_len {
                FileSource::FromCache
            } else {
                FileSource::FromDisk
            }
        },
        None => FileSource::FromDisk,
    }
}

} // verus!
