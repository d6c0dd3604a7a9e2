//! Requests: the head (request line and headers) is parsed from its lines,
//! checked against the route table, and turns into a plan for the body.
use vstd::prelude::*;
use vstd::string::StringExecFns;
use vstd::string::StrSliceExecFns;
use crate::error::ApiError;
use crate::response::{headers_with, header_view, set_header};
use crate::router::{regex_captures_of, URLRouter};
use crate::text::{parse_u64, parsed_u64};
use crate::utils::{
    content_type_of_mime, lower_of, method_of_name, protocol_of_name, str_eq, trim_str, trimmed_of,
    ContentType, FileType, Method, Protocall,
};

verus! {

/// Bodies of a textual kind shorter than this are kept in memory; all
/// others are written to a file.
pub const TEXTUAL_CONTENT_MEMORY_LIMIT: u64 = 0;

/// Bytes read from the socket at a time while reading a body.
pub const BODY_READ_SPEED: u64 = 8192;

/// First position of `c` in `s`, or -1.
pub open spec fn index_of_char(s: Seq<char>, c: char) -> int
    decreases s.len(),
{
    if s.len() == 0 {
        -1
    } else if s[0] == c {
        0
    } else if index_of_char(s.drop_first(), c) < 0 {
        -1
    } else {
        index_of_char(s.drop_first(), c) + 1
    }
}

proof fn lemma_index_of_char(s: Seq<char>, c: char, i: int)
    requires
        0 <= i <= s.len(),
        forall|j: int| 0 <= j < i ==> s[j] != c,
        i < s.len() ==> s[i] == c,
    ensures
        index_of_char(s, c) == (if i == s.len() { -1 } else { i }),
    decreases i,
{
    if i > 0 {
        lemma_index_of_char(s.drop_first(), c, i - 1);
    }
}

/// The text before and after the first `c` in `s`, if there is one.
pub open spec fn split_once_char(s: Seq<char>, c: char) -> Option<(Seq<char>, Seq<char>)> {
    let i = index_of_char(s, c);
    if i < 0 {
        None
    } else {
        Some((s.subrange(0, i), s.subrange(i + 1, s.len() as int)))
    }
}

/// The pieces of `s` between occurrences of `c`, as `str::split` gives them.
pub open spec fn split_seq(s: Seq<char>, c: char) -> Seq<Seq<char>>
    decreases s.len(),
{
    let i = index_of_char(s, c);
    if i < 0 {
        seq![s]
    } else {
        if 0 <= i < s.len() {
            seq![s.subrange(0, i)] + split_seq(s.subrange(i + 1, s.len() as int), c)
        } else {
            seq![s]
        }
    }
}

proof fn lemma_index_of_char_bound(s: Seq<char>, c: char)
    ensures
        -1 <= index_of_char(s, c) < s.len(),
        index_of_char(s, c) >= 0 ==> s[index_of_char(s, c)] == c,
    decreases s.len(),
{
    if s.len() > 0 {
        lemma_index_of_char_bound(s.drop_first(), c);
    }
}

proof fn lemma_split_seq_nonempty(s: Seq<char>, c: char)
    ensures
        split_seq(s, c).len() >= 1,
    decreases s.len(),
{
    lemma_index_of_char_bound(s, c);
    let i = index_of_char(s, c);
    if i >= 0 {
        lemma_split_seq_nonempty(s.subrange(i + 1, s.len() as int), c);
    }
}

/// First position of `": "` in `s`, or -1.
pub open spec fn index_of_colon_space(s: Seq<char>) -> int
    decreases s.len(),
{
    if s.len() < 2 {
        -1
    } else if s[0] == ':' && s[1] == ' ' {
        0
    } else if index_of_colon_space(s.drop_first()) < 0 {
        -1
    } else {
        index_of_colon_space(s.drop_first()) + 1
    }
}

proof fn lemma_index_of_colon_space(s: Seq<char>, i: int)
    requires
        0 <= i <= s.len(),
        forall|j: int| 0 <= j < i && j + 1 < s.len() ==> !(#[trigger] s[j] == ':' && s[j + 1] == ' '),
        i + 1 < s.len() ==> s[i] == ':' && s[i + 1] == ' ',
        i + 1 >= s.len() ==> i == s.len(),
    ensures
        index_of_colon_space(s) == (if i == s.len() { -1 } else { i }),
    decreases i,
{
    if i > 0 && s.len() >= 2 {
        lemma_index_of_colon_space(s.drop_first(), i - 1);
    }
}

/// A header line split at its first `": "`, into name and value.
pub open spec fn header_parts(s: Seq<char>) -> Option<(Seq<char>, Seq<char>)> {
    let i = index_of_colon_space(s);
    if i < 0 {
        None
    } else {
        Some((s.subrange(0, i), s.subrange(i + 2, s.len() as int)))
    }
}

/// The parameters of a query string `k=v&k=v`: pieces without `=` are
/// skipped, and a later value of a key replaces an earlier one.
pub open spec fn query_fold(acc: Seq<(Seq<char>, Seq<char>)>, q: Seq<char>) -> Seq<(Seq<char>, Seq<char>)>
    decreases q.len(),
{
    let i = index_of_char(q, '&');
    let piece = if 0 <= i < q.len() { q.subrange(0, i) } else { q };
    let acc2 = match split_once_char(piece, '=') {
        Some(kv) => headers_with(acc, kv.0, kv.1),
        None => acc,
    };
    if 0 <= i < q.len() {
        query_fold(acc2, q.subrange(i + 1, q.len() as int))
    } else {
        acc2
    }
}

/// First position of `c` in `s` at or after `from`.
fn find_char(s: &str, n: usize, c: char, from: usize) -> (r: Option<usize>)
    requires
        n == s@.len(),
        from <= n,
    ensures
        r matches Some(i) ==> from <= i < n && s@[i as int] == c,
        r matches Some(i) ==> forall|j: int| from <= j < i ==> s@[j] != c,
        r is None ==> forall|j: int| from <= j < n ==> s@[j] != c,
        index_of_char(s@.subrange(from as int, n as int), c) == (match r {
            Some(i) => i - from,
            None => -1,
        }),
{
    let mut i: usize = from;
    while i < n
        invariant
            from <= i <= n,
            n == s@.len(),
            forall|j: int| from <= j < i ==> s@[j] != c,
        decreases n - i,
    {
        if s.get_char(i) == c {
            proof {
                let t = s@.subrange(from as int, n as int);
                lemma_index_of_char(t, c, i - from);
            }
            return Some(i);
        }
        i = i + 1;
    }
    proof {
        let t = s@.subrange(from as int, n as int);
        lemma_index_of_char(t, c, n - from);
    }
    None
}

/// Splits a request line into its three words, if it has exactly three.
pub fn split_request_line(t: &str) -> (r: Option<(String, String, String)>)
    ensures
        r is Some <==> split_seq(t@, ' ').len() == 3,
        r matches Some(p) ==> split_seq(t@, ' ') == seq![p.0@, p.1@, p.2@],
{
    let n = t.unicode_len();
    let ghost s = t@;
    proof {
        assert(s.subrange(0, n as int) =~= s);
    }
    let i1 = match find_char(t, n, ' ', 0) {
        Some(i) => i,
        None => {
            return None;
        },
    };
    let ghost r1 = s.subrange(i1 + 1, n as int);
    proof {
        assert(split_seq(s, ' ') == seq![s.subrange(0, i1 as int)] + split_seq(r1, ' '));
        lemma_split_seq_nonempty(r1, ' ');
    }
    let i2 = match find_char(t, n, ' ', i1 + 1) {
        Some(i) => i,
        None => {
            proof {
                assert(split_seq(r1, ' ') == seq![r1]);
            }
            return None;
        },
    };
    let ghost r2 = s.subrange(i2 + 1, n as int);
    proof {
        assert(r1.subrange((i2 - i1) as int, r1.len() as int) =~= r2);
        assert(r1.subrange(0, (i2 - i1 - 1) as int) =~= s.subrange(i1 + 1, i2 as int));
        assert(split_seq(r1, ' ') == seq![s.subrange(i1 + 1, i2 as int)] + split_seq(r2, ' '));
        lemma_split_seq_nonempty(r2, ' ');
    }
    match find_char(t, n, ' ', i2 + 1) {
        Some(i3) => {
            proof {
                let r3 = s.subrange(i3 + 1, n as int);
                assert(r2.subrange((i3 - i2) as int, r2.len() as int) =~= r3);
                assert(split_seq(r2, ' ') == seq![s.subrange(i2 + 1, i3 as int)] + split_seq(r3, ' '))
                    by {
                    assert(r2.subrange(0, (i3 - i2 - 1) as int) =~= s.subrange(i2 + 1, i3 as int));
                }
                lemma_split_seq_nonempty(r3, ' ');
            }
            None
        },
        None => {
            let a = String::from_str(t.substring_char(0, i1));
            let b = String::from_str(t.substring_char(i1 + 1, i2));
            let c = String::from_str(t.substring_char(i2 + 1, n));
            proof {
                assert(split_seq(r2, ' ') == seq![r2]);
                assert(split_seq(s, ' ') =~= seq![a@, b@, c@]);
            }
            Some((a, b, c))
        },
    }
}

/// Splits `s` at its first `c`.
pub fn split_once(s: &str, c: char) -> (r: Option<(String, String)>)
    ensures
        r matches Some(p) ==> split_once_char(s@, c) == Some((p.0@, p.1@)),
        r is None ==> split_once_char(s@, c) is None,
{
    let n = s.unicode_len();
    proof {
        assert(s@.subrange(0, n as int) =~= s@);
    }
    match find_char(s, n, c, 0) {
        Some(i) => Some((String::from_str(s.substring_char(0, i)), String::from_str(s.substring_char(i + 1, n)))),
        None => None,
    }
}

/// Splits a header line at its first `": "`.
pub fn split_header(s: &str) -> (r: Option<(String, String)>)
    ensures
        r matches Some(p) ==> header_parts(s@) == Some((p.0@, p.1@)),
        r is None ==> header_parts(s@) is None,
{
    let n = s.unicode_len();
    let mut i: usize = 0;
    while n > 1 && i < n - 1
        invariant
            n == s@.len(),
            i <= n,
            forall|j: int| 0 <= j < i && j + 1 < n ==> !(#[trigger] s@[j] == ':' && s@[j + 1] == ' '),
        decreases n - i,
    {
        if s.get_char(i) == ':' && s.get_char(i + 1) == ' ' {
            proof {
                lemma_index_of_colon_space(s@, i as int);
            }
            return Some((String::from_str(s.substring_char(0, i)), String::from_str(s.substring_char(i + 2, n))));
        }
        i = i + 1;
    }
    proof {
        assert forall|j: int| 0 <= j < n && j + 1 < n implies !(#[trigger] s@[j] == ':' && s@[j + 1] == ' ') by {}
        lemma_index_of_colon_space(s@, n as int);
    }
    None
}

/// The parameters of a query string.
pub fn parse_query(q: &str) -> (r: Vec<(String, String)>)
    ensures
        header_view(r@) == query_fold(Seq::empty(), q@),
{
    let n = q.unicode_len();
    let mut acc: Vec<(String, String)> = Vec::new();
    let mut pos: usize = 0;
    proof {
        assert(q@.subrange(0, n as int) =~= q@);
        assert(header_view(acc@) =~= Seq::<(Seq<char>, Seq<char>)>::empty());
    }
    loop
        invariant
            n == q@.len(),
            pos <= n,
            query_fold(Seq::empty(), q@) == query_fold(header_view(acc@), q@.subrange(pos as int, n as int)),
        decreases n - pos,
    {
        let ghost rest = q@.subrange(pos as int, n as int);
        let found = find_char(q, n, '&', pos);
        let end = match found {
            Some(i) => i,
            None => n,
        };
        let piece = q.substring_char(pos, end);
        proof {
            let i = index_of_char(rest, '&');
            if found is Some {
                assert(rest.subrange(0, i) =~= piece@);
            } else {
                assert(rest =~= piece@);
            }
        }
        match split_once(piece, '=') {
            Some((k, v)) => {
                set_header(&mut acc, k.as_str(), v.as_str());
            },
            None => {},
        }
        match found {
            Some(i) => {
                proof {
                    assert(rest.subrange(i - pos + 1, rest.len() as int) =~= q@.subrange(i + 1, n as int));
                }
                pos = i + 1;
            },
            None => {
                return acc;
            },
        }
    }
}

/// Why a request head was refused.
#[derive(Clone, Copy, Debug, PartialEq, Eq, Structural)]
pub enum HeadError {
    RequestNotHttp,
    ResourceNotFound,
    MethodNotSupported,
    MethodNotAllowed,
    InvalidContentLength,
    PayloadTooLarge,
    ContentNotSupported,
}

/// A request as parsed so far.
pub struct HttpRequest {
    /// Protocol version of the request.
    pub protocol: Protocall,
    /// Method keyword, as sent.
    pub method: String,
    /// Address of the client, if known.
    pub client: Option<String>,
    /// Requested path, without its query.
    pub resource: String,
    /// Query parameters, when the path had a query.
    pub params: Option<Vec<(String, String)>>,
    /// Body of a textual request kept in memory.
    pub body: Option<String>,
    /// Where the body was written, when it went to a file.
    pub body_location: Option<String>,
    /// Kind of the body.
    pub content_type: Option<ContentType>,
    /// Length of the body.
    pub content_len: Option<u64>,
    /// Headers, as received.
    pub headers: Vec<(String, String)>,
}

/// What head parsing knows of a request.
pub struct HeadView {
    pub first_done: bool,
    pub method: Seq<char>,
    pub resource: Seq<char>,
    pub params: Option<Seq<(Seq<char>, Seq<char>)>>,
    pub protocol: Protocall,
    pub content_type: Option<ContentType>,
    pub content_len: Option<u64>,
    pub headers: Seq<(Seq<char>, Seq<char>)>,
}

/// A request seen as a `HeadView`, once its request line has been read or
/// not, as `first_done` says.
pub open spec fn head_of(r: HttpRequest, first_done: bool) -> HeadView {
    HeadView {
        first_done,
        method: r.method@,
        resource: r.resource@,
        params: match r.params {
            Some(p) => Some(header_view(p@)),
            None => None,
        },
        protocol: r.protocol,
        content_type: r.content_type,
        content_len: r.content_len,
        headers: header_view(r.headers@),
    }
}

/// The head of a request before any line was read.
pub open spec fn empty_head() -> HeadView {
    HeadView {
        first_done: false,
        method: Seq::empty(),
        resource: Seq::empty(),
        params: None,
        protocol: Protocall::HTTP1_0,
        content_type: None,
        content_len: None,
        headers: Seq::empty(),
    }
}

/// Whether route `j` is the first one whose pattern matches `url`.
pub open spec fn is_first_route(patterns: Seq<Seq<char>>, url: Seq<char>, j: int) -> bool {
    &&& 0 <= j < patterns.len()
    &&& regex_captures_of(patterns[j], url) is Some
    &&& forall|k: int| 0 <= k < j ==> regex_captures_of(patterns[k], url) is None
}

/// Whether some route matches `url`.
pub open spec fn has_route(patterns: Seq<Seq<char>>, url: Seq<char>) -> bool {
    exists|j: int| is_first_route(patterns, url, j)
}

/// The first route that matches `url`, when there is one.
pub open spec fn first_route(patterns: Seq<Seq<char>>, url: Seq<char>) -> int {
    choose|j: int| is_first_route(patterns, url, j)
}

/// What reading the request line `t` (already trimmed) does to a head.
pub open spec fn request_line_step(
    v: HeadView,
    t: Seq<char>,
    patterns: Seq<Seq<char>>,
    methods: Seq<Seq<Method>>,
) -> Result<HeadView, HeadError> {
    let parts = split_seq(t, ' ');
    if parts.len() != 3 {
        Err(HeadError::RequestNotHttp)
    } else {
        let (resource, params) = match split_once_char(parts[1], '?') {
            Some(uq) => (uq.0, Some(query_fold(Seq::empty(), uq.1))),
            None => (parts[1], v.params),
        };
        match protocol_of_name(trimmed_of(parts[2])) {
            None => Err(HeadError::RequestNotHttp),
            Some(p) => {
                if !has_route(patterns, resource) {
                    Err(HeadError::ResourceNotFound)
                } else {
                    match method_of_name(parts[0]) {
                        None => Err(HeadError::MethodNotSupported),
                        Some(m) => {
                            if !methods[first_route(patterns, resource)].contains(m) {
                                Err(HeadError::MethodNotAllowed)
                            } else {
                                Ok(HeadView { first_done: true, method: parts[0], resource, params, protocol: p, ..v })
                            }
                        },
                    }
                }
            },
        }
    }
}

/// What a header line `t` (already trimmed) does to a head.
pub open spec fn header_step(v: HeadView, t: Seq<char>, max_payload: u64) -> Result<HeadView, HeadError> {
    match header_parts(t) {
        None => Ok(v),
        Some(kv) => {
            let (k, val) = kv;
            let not_get = v.method != "GET"@;
            if (k == "Content-Length"@ || k == "content-length"@) && not_get {
                match parsed_u64(val) {
                    None => Err(HeadError::InvalidContentLength),
                    Some(size) => if size > max_payload {
                        Err(HeadError::PayloadTooLarge)
                    } else {
                        Ok(HeadView { content_len: Some(size), headers: headers_with(v.headers, k, val), ..v })
                    },
                }
            } else if (k == "Content-Type"@ || k == "content-type"@) && not_get {
                match content_type_of_mime(lower_of(trimmed_of(val))) {
                    None => Err(HeadError::ContentNotSupported),
                    Some(c) => Ok(HeadView { content_type: Some(c), headers: headers_with(v.headers, k, val), ..v }),
                }
            } else {
                Ok(HeadView { headers: headers_with(v.headers, k, val), ..v })
            }
        },
    }
}

/// What one line of the head does: an empty line (once trimmed) ends the
/// head; the first line is the request line; every line is then also read
/// as a header.
pub open spec fn line_step(
    v: HeadView,
    line: Seq<char>,
    patterns: Seq<Seq<char>>,
    methods: Seq<Seq<Method>>,
    max_payload: u64,
) -> Result<HeadView, HeadError> {
    let t = trimmed_of(line);
    let first = if !v.first_done {
        request_line_step(v, t, patterns, methods)
    } else {
        Ok(v)
    };
    match first {
        Err(e) => Err(e),
        Ok(v1) => header_step(v1, t, max_payload),
    }
}

/// The head read from `lines`, starting from `v`.
pub open spec fn head_fold(
    v: HeadView,
    lines: Seq<Seq<char>>,
    patterns: Seq<Seq<char>>,
    methods: Seq<Seq<Method>>,
    max_payload: u64,
) -> Result<HeadView, HeadError>
    decreases lines.len(),
{
    if lines.len() == 0 || trimmed_of(lines[0]).len() == 0 {
        Ok(v)
    } else {
        match line_step(v, lines[0], patterns, methods, max_payload) {
            Err(e) => Err(e),
            Ok(v1) => head_fold(v1, lines.drop_first(), patterns, methods, max_payload),
        }
    }
}

impl HttpRequest {
    /// A request with nothing read yet.
    pub fn new() -> (r: HttpRequest)
        ensures
            head_of(r, false) == empty_head(),
            r.client is None,
            r.body is None,
            r.body_location is None,
    {
        let r = HttpRequest {
            protocol: Protocall::HTTP1_0,
            method: String::new(),
            client: None,
            resource: String::new(),
            params: None,
            body: None,
            body_location: None,
            content_type: None,
            content_len: None,
            headers: Vec::new(),
        };
        proof {
            assert(header_view(r.headers@) =~= Seq::<(Seq<char>, Seq<char>)>::empty());
            assert(head_of(r, false) =~= empty_head());
        }
        r
    }

    /// Reads the request line `t` (already trimmed).
    fn apply_request_line(&mut self, t: &str, router: &URLRouter) -> (r: Result<(), HeadError>)
        ensures
            r matches Ok(_) ==> request_line_step(head_of(*old(self), false), t@, router.patterns(), router.methods())
                == Ok::<HeadView, HeadError>(head_of(*final(self), true)),
            r matches Err(e) ==> request_line_step(head_of(*old(self), false), t@, router.patterns(), router.methods())
                == Err::<HeadView, HeadError>(e),
            final(self).client == old(self).client,
            final(self).body == old(self).body,
            final(self).body_location == old(self).body_location,
    {
        let ghost v = head_of(*self, false);
        let (method, resorce, protocol) = match split_request_line(t) {
            Some(p) => p,
            None => {
                return Err(HeadError::RequestNotHttp);
            },
        };
        let ghost parts = split_seq(t@, ' ');
        proof {
            assert(parts.len() == 3);
            assert(parts[0] == method@);
            assert(parts[1] == resorce@);
            assert(parts[2] == protocol@);
        }
        let (resource, params) = match split_once(resorce.as_str(), '?') {
            Some((url_part, query_part)) => (url_part, Some(parse_query(query_part.as_str()))),
            None => (resorce, None),
        };
        let proto = match Protocall::from_str(trim_str(protocol.as_str())) {
            Some(p) => p,
            None => {
                return Err(HeadError::RequestNotHttp);
            },
        };
        let found = match router.get_route(resource.as_str()) {
            Some(m) => m.index,
            None => {
                proof {
                    assert forall|j: int| !is_first_route(router.patterns(), resource@, j) by {}
                }
                return Err(HeadError::ResourceNotFound);
            },
        };
        proof {
            assert(is_first_route(router.patterns(), resource@, found as int));
            let j = first_route(router.patterns(), resource@);
            if j < found as int {
                assert(regex_captures_of(router.patterns()[j], resource@) is None);
            } else if j > found as int {
                assert(regex_captures_of(router.patterns()[found as int], resource@) is None);
            }
            assert(j == found as int);
        }
        let m = match Method::from_string(method.as_str()) {
            Some(m) => m,
            None => {
                return Err(HeadError::MethodNotSupported);
            },
        };
        if !router.route(found).allows(m) {
            return Err(HeadError::MethodNotAllowed);
        }
        self.method = method;
        self.resource = resource;
        if params.is_some() {
            self.params = params;
        }
        self.protocol = proto;
        proof {
            assert(head_of(*self, true) =~= request_line_step(v, t@, router.patterns(), router.methods())->Ok_0);
        }
        Ok(())
    }

    /// Reads the header line `t` (already trimmed).
    fn apply_header(&mut self, t: &str, first_done: bool, max_payload: u64) -> (r: Result<(), HeadError>)
        ensures
            r matches Ok(_) ==> header_step(head_of(*old(self), first_done), t@, max_payload)
                == Ok::<HeadView, HeadError>(head_of(*final(self), first_done)),
            r matches Err(e) ==> header_step(head_of(*old(self), first_done), t@, max_payload)
                == Err::<HeadView, HeadError>(e),
            final(self).client == old(self).client,
            final(self).body == old(self).body,
            final(self).body_location == old(self).body_location,
    {
        let ghost v = head_of(*self, first_done);
        let (key, val) = match split_header(t) {
            Some(kv) => kv,
            None => {
                return Ok(());
            },
        };
        let not_get = !str_eq(self.method.as_str(), "GET");
        if (str_eq(key.as_str(), "Content-Length") || str_eq(key.as_str(), "content-length")) && not_get {
            let size = match parse_u64(val.as_str()) {
                Some(n) => n,
                None => {
                    return Err(HeadError::InvalidContentLength);
                },
            };
            if size > max_payload {
                return Err(HeadError::PayloadTooLarge);
            }
            self.content_len = Some(size);
            set_header(&mut self.headers, key.as_str(), val.as_str());
        } else if (str_eq(key.as_str(), "Content-Type") || str_eq(key.as_str(), "content-type")) && not_get {
            let content_type = match ContentType::from_header(val.as_str()) {
                Ok(ct) => ct,
                Err(_e) => {
                    return Err(HeadError::ContentNotSupported);
                },
            };
            self.content_type = Some(content_type);
            set_header(&mut self.headers, key.as_str(), val.as_str());
        } else {
            set_header(&mut self.headers, key.as_str(), val.as_str());
        }
        proof {
            assert(head_of(*self, first_done) =~= header_step(v, t@, max_payload)->Ok_0);
        }
        Ok(())
    }

    /// Parses the lines of a request head (line ends removed): the request
    /// line, checked against `router`, then the headers, up to the first
    /// blank line. `Content-Length` and `Content-Type` are read on
    /// requests other than `GET`.
    pub fn parse_metadata(lines: &Vec<String>, router: &URLRouter, max_payload: u64) -> (r: Result<HttpRequest, HeadError>)
        ensures
            r matches Ok(req) ==> exists|done: bool|
                head_fold(empty_head(), lines@.map_values(|l: String| l@), router.patterns(), router.methods(), max_payload)
                    == Ok::<HeadView, HeadError>(#[trigger] head_of(req, done)),
            r matches Err(e) ==> head_fold(empty_head(), lines@.map_values(|l: String| l@), router.patterns(), router.methods(), max_payload)
                == Err::<HeadView, HeadError>(e),
            r matches Ok(req) ==> req.client is None && req.body is None && req.body_location is None,
    {
        let ghost ls = lines@.map_values(|l: String| l@);
        let mut req = HttpRequest::new();
        let mut first_done = false;
        let mut i: usize = 0;
        proof {
            assert(ls.subrange(0, ls.len() as int) =~= ls);
        }
        while i < lines.len()
            invariant
                i <= lines@.len(),
                ls == lines@.map_values(|l: String| l@),
                head_fold(empty_head(), ls, router.patterns(), router.methods(), max_payload) == head_fold(
                    head_of(req, first_done),
                    ls.subrange(i as int, ls.len() as int),
                    router.patterns(),
                    router.methods(),
                    max_payload,
                ),
                req.client is None && req.body is None && req.body_location is None,
            decreases lines@.len() - i,
        {
            let ghost rest = ls.subrange(i as int, ls.len() as int);
            proof {
                assert(rest[0] == lines@[i as int]@);
                assert(rest.drop_first() =~= ls.subrange(i + 1, ls.len() as int));
            }
            let t = trim_str(lines[i].as_str());
            if t.is_empty() {
                proof {
                    assert(head_fold(head_of(req, first_done), rest, router.patterns(), router.methods(), max_payload)
                        == Ok::<HeadView, HeadError>(head_of(req, first_done)));
                }
                return Ok(req);
            }
            let ghost before = head_of(req, first_done);
            if !first_done {
                match req.apply_request_line(t, router) {
                    Ok(()) => {},
                    Err(e) => {
                        return Err(e);
                    },
                }
                first_done = true;
            }
            match req.apply_header(t, first_done, max_payload) {
                Ok(()) => {},
                Err(e) => {
                    return Err(e);
                },
            }
            proof {
                assert(line_step(before, lines@[i as int]@, router.patterns(), router.methods(), max_payload)
                    == Ok::<HeadView, HeadError>(head_of(req, first_done)));
            }
            i = i + 1;
        }
        proof {
            assert(ls.subrange(i as int, ls.len() as int).len() == 0);
            assert(head_fold(empty_head(), ls, router.patterns(), router.methods(), max_payload)
                == Ok::<HeadView, HeadError>(head_of(req, first_done)));
        }
        Ok(req)
    }
}

/// The error, with its message, that a refused head is reported as;
/// `method` and `resource` are those of the request line.
pub open spec fn head_error_text(e: HeadError, method: Seq<char>, resource: Seq<char>) -> Option<Seq<char>> {
    match e {
        HeadError::RequestNotHttp => Some("Only HTTP/1.x requests are allowed."@),
        HeadError::ResourceNotFound => Some("Resource "@ + resource + " not found"@),
        HeadError::MethodNotSupported => Some("Method "@ + method + " not supported."@),
        HeadError::MethodNotAllowed => Some("Method "@ + method + " not allowed."@),
        _ => None,
    }
}

/// The kind of failure that a refused head is reported as.
pub open spec fn head_error_kind(e: HeadError, a: ApiError) -> bool {
    match e {
        HeadError::RequestNotHttp => a is RequestNotHttp,
        HeadError::ResourceNotFound => a is ResourceNotFound,
        HeadError::MethodNotSupported => a is MethodNotSupported,
        HeadError::MethodNotAllowed => a is MethodNotAllowed,
        HeadError::InvalidContentLength => a is InvalidContentLength,
        HeadError::PayloadTooLarge => a is PayloadTooLarge,
        HeadError::ContentNotSupported => a is ContentNotSupported,
    }
}

/// The method and path that a request line names, as far as it can be read.
pub open spec fn line_method_resource(first_line: Seq<char>) -> (Seq<char>, Seq<char>) {
    let parts = split_seq(trimmed_of(first_line), ' ');
    if parts.len() == 3 {
        let resource = match split_once_char(parts[1], '?') {
            Some(uq) => uq.0,
            None => parts[1],
        };
        (parts[0], resource)
    } else {
        (Seq::empty(), Seq::empty())
    }
}

/// The failure reported for head error `e`, its message naming the method
/// and path of `first_line`.
pub fn head_error(e: HeadError, first_line: &str) -> (r: ApiError)
    ensures
        head_error_kind(e, r),
        match crate::error::carried_message(r) {
            Some(m) => head_error_text(e, line_method_resource(first_line@).0, line_method_resource(first_line@).1)
                == Some(m@),
            None => head_error_text(e, line_method_resource(first_line@).0, line_method_resource(first_line@).1) is None,
        },
{
    let t = trim_str(first_line);
    let (method, resource) = match split_request_line(t) {
        Some((m, res, _p)) => {
            let resource = match split_once(res.as_str(), '?') {
                Some((u, _q)) => u,
                None => res,
            };
            (m, resource)
        },
        None => (String::new(), String::new()),
    };
    match e {
        HeadError::RequestNotHttp => ApiError::RequestNotHttp(Some(String::from_str("Only HTTP/1.x requests are allowed."))),
        HeadError::ResourceNotFound => {
            let msg = String::from_str("Resource ").concat(resource.as_str()).concat(" not found");
            ApiError::ResourceNotFound(Some(msg))
        },
        HeadError::MethodNotSupported => {
            let msg = String::from_str("Method ").concat(method.as_str()).concat(" not supported.");
            ApiError::MethodNotSupported(Some(msg))
        },
        HeadError::MethodNotAllowed => {
            let msg = String::from_str("Method ").concat(method.as_str()).concat(" not allowed.");
            ApiError::MethodNotAllowed(Some(msg))
        },
        HeadError::InvalidContentLength => ApiError::InvalidContentLength(None),
        HeadError::PayloadTooLarge => ApiError::PayloadTooLarge(None),
        HeadError::ContentNotSupported => ApiError::ContentNotSupported(None),
    }
}

/// How the body of a parsed request is to be read.
#[derive(Clone, Copy, Debug, PartialEq, Eq, Structural)]
pub enum BodyPlan {
    /// No body is read.
    NoBody,
    /// This many bytes are read into memory, as text.
    InMemory(u64),
    /// This many bytes are written to a new file of this kind.
    ToFile(u64, FileType),
}

/// Whether a content kind is textual.
pub open spec fn is_textual(c: ContentType) -> bool {
    c == ContentType::TEXT || c == ContentType::JSON || c == ContentType::YAML
}

/// How the body of a request with this method, content kind and length is
/// read: `GET` has none; any other method needs a content kind, and a
/// missing length counts as an empty body; a short textual body goes to
/// memory, any other to a file of the matching kind. So every request
/// other than `GET` ends with exactly one of a text body or a body file.
pub open spec fn body_plan_of(is_get: bool, content_type: Option<ContentType>, content_len: Option<u64>) -> Result<BodyPlan, HeadError> {
    if is_get {
        Ok(BodyPlan::NoBody)
    } else {
        match content_type {
            None => Err(HeadError::RequestNotHttp),
            Some(c) => {
                let n: u64 = match content_len {
                    Some(n) => n,
                    None => 0,
                };
                if is_textual(c) && n < TEXTUAL_CONTENT_MEMORY_LIMIT {
                    Ok(BodyPlan::InMemory(n))
                } else {
                    Ok(BodyPlan::ToFile(n, crate::utils::file_of_content(c)))
                }
            },
        }
    }
}

impl HttpRequest {
    /// How the body of this request is to be read; a request other than
    /// `GET` without a content kind is refused.
    pub fn body_plan(&self) -> (r: Result<BodyPlan, ApiError>)
        ensures
            r matches Ok(p) ==> body_plan_of(self.method@ == "GET"@, self.content_type, self.content_len) == Ok::<BodyPlan, HeadError>(p),
            r matches Ok(p) ==> (p is NoBody <==> self.method@ == "GET"@),
            r is Err <==> body_plan_of(self.method@ == "GET"@, self.content_type, self.content_len) is Err,
            r matches Err(e) ==> e is ContentTypeRequired && crate::error::carried_message(e) is None,
    {
        if str_eq(self.method.as_str(), "GET") {
            return Ok(BodyPlan::NoBody);
        }
        match self.content_type {
            None => Err(ApiError::ContentTypeRequired(None)),
            Some(c) => {
                let n: u64 = match self.content_len {
                    Some(n) => n,
                    None => 0,
                };
                let textual = match c {
                    ContentType::TEXT | ContentType::JSON | ContentType::YAML => true,
                    _ => false,
                };
                if textual && n < TEXTUAL_CONTENT_MEMORY_LIMIT {
                    Ok(BodyPlan::InMemory(n))
                } else {
                    Ok(BodyPlan::ToFile(n, c.to_file_type()))
                }
            },
        }
    }
}

/// Size of the next read of a body with `remaining` bytes still to come.
pub fn next_chunk_len(remaining: u64) -> (r: u64)
    ensures
        r == if remaining < BODY_READ_SPEED { remaining } else { BODY_READ_SPEED },
{
    if remaining < BODY_READ_SPEED {
        remaining
    } else {
        BODY_READ_SPEED
    }
}

/// The sizes of the reads that take in a body of `n` bytes.
pub open spec fn chunk_plan(n: nat) -> Seq<nat>
    decreases n,
{
    if n == 0 {
        Seq::empty()
    } else {
        let c = if n < BODY_READ_SPEED { n } else { BODY_READ_SPEED as nat };
        seq![c] + chunk_plan((n - c) as nat)
    }
}

/// Sum of a sequence of sizes.
pub open spec fn seq_sum(s: Seq<nat>) -> nat
    decreases s.len(),
{
    if s.len() == 0 {
        0
    } else {
        s[0] + seq_sum(s.drop_first())
    }
}

/// Reading a body of `Content-Length` `n` in chunks of `next_chunk_len`
/// takes exactly `n` bytes, never more than `BODY_READ_SPEED` at a time
/// and never nothing.
pub proof fn lemma_body_reads_exactly(n: nat)
    ensures
        seq_sum(chunk_plan(n)) == n,
        forall|i: int| 0 <= i < chunk_plan(n).len() ==> 0 < #[trigger] chunk_plan(n)[i] <= BODY_READ_SPEED,
    decreases n,
{
    if n > 0 {
        let c = if n < BODY_READ_SPEED { n } else { BODY_READ_SPEED as nat };
        lemma_body_reads_exactly((n - c) as nat);
        assert((seq![c] + chunk_plan((n - c) as nat)).drop_first() =~= chunk_plan((n - c) as nat));
        assert forall|i: int| 0 <= i < chunk_plan(n).len() implies 0 < #[trigger] chunk_plan(n)[i] <= BODY_READ_SPEED by {
            if i > 0 {
                assert(chunk_plan(n)[i] == chunk_plan((n - c) as nat)[i - 1]);
            }
        }
    }
}

/// A `Content-Length` header written in decimal reads back as the same
/// number.
pub proof fn lemma_content_length_round_trip(n: u64)
    ensures
        parsed_u64(crate::text::decimal_of(n as nat)) == Some(n),
{
    crate::text::lemma_decimal_digits(n as nat);
}

/// Whether a character is an ASCII letter or digit.
pub open spec fn is_alphanumeric(c: char) -> bool {
    ('a' <= c && c <= 'z') || ('A' <= c && c <= 'Z') || ('0' <= c && c <= '9')
}

/// Relies on `rand::distributions::DistString::sample_string` for
/// `Alphanumeric` with the thread-local generator: `len` characters, each
/// drawn from `A-Z`, `a-z` and `0-9`.
#[verifier::external_body]
fn random_alphanumeric(len: usize) -> (r: String)
    ensures
        r@.len() == len,
        forall|i: int| 0 <= i < len ==> is_alphanumeric(#[trigger] r@[i]),
{
    rand::distributions::DistString::sample_string(&rand::distributions::Alphanumeric, &mut rand::thread_rng(), len)
}

/// The name of a file that takes an uploaded body of kind `file_type`:
/// `stem` followed by the kind's extension.
pub fn upload_file_name(stem: &str, file_type: FileType) -> (r: String)
    ensures
        r@ == stem@ + crate::utils::extension_of(file_type),
{
    String::from_str(stem).concat(file_type.extension())
}

/// A fresh name for an uploaded body: seven random letters or digits and
/// the extension of `file_type`.
pub fn new_upload_file_name(file_type: FileType) -> (r: String)
    ensures
        exists|stem: Seq<char>|
            stem.len() == 7 && (forall|i: int| 0 <= i < 7 ==> is_alphanumeric(#[trigger] stem[i]))
                && r@ == stem + crate::utils::extension_of(file_type),
{
    let stem = random_alphanumeric(7);
    upload_file_name(stem.as_str(), file_type)
}

/// What one attempt to read a line of the head gave.
pub enum ReadOutcome {
    /// A line of this many bytes, line end included; zero at end of stream.
    Got(usize),
    /// Nothing could be read now.
    WouldBlock,
    /// The read timeout of the socket expired.
    TimedOut,
    /// Any other failure.
    Failed,
}

/// What the head reader does next.
pub enum HeadReadStep {
    /// Read another line.
    Continue,
    /// The line just read ends the head.
    HeadDone,
    /// Give up with this failure.
    Fail(ApiError),
}

/// The next step of the head reader, which last received a byte `idle_ms`
/// milliseconds ago: the stream's end means the client left; a line of
/// fewer than three bytes ends the head; a blocked read past the read
/// timeout, or an expired socket timeout, fails the request.
pub fn head_read_step(outcome: ReadOutcome, idle_ms: u64, timeout_ms: u64) -> (r: HeadReadStep)
    ensures
        outcome matches ReadOutcome::Got(n) ==> (if n == 0 {
            r matches HeadReadStep::Fail(e) && e is ClientDisconnected && crate::error::carried_message(e) is None
        } else if n < 3 {
            r is HeadDone
        } else {
            r is Continue
        }),
        outcome is WouldBlock ==> (if idle_ms > timeout_ms {
            r matches HeadReadStep::Fail(e) && e is RequestTimedout && crate::error::carried_message(e) is None
        } else {
            r is Continue
        }),
        outcome is TimedOut ==> (r matches HeadReadStep::Fail(e) && e is RequestTimedout
            && crate::error::carried_message(e) is None),
        outcome is Failed ==> (r matches HeadReadStep::Fail(e) && e is RequestReadError && (
        crate::error::carried_message(e) matches Some(m) && m@ == "Error Occured while reading request meta data."@)),
{
    match outcome {
        ReadOutcome::Got(n) => {
            if n == 0 {
                HeadReadStep::Fail(ApiError::ClientDisconnected(None))
            } else if n < 3 {
                HeadReadStep::HeadDone
            } else {
                HeadReadStep::Continue
            }
        },
        ReadOutcome::WouldBlock => {
            if idle_ms > timeout_ms {
                HeadReadStep::Fail(ApiError::RequestTimedout(None))
            } else {
                HeadReadStep::Continue
            }
        },
        ReadOutcome::TimedOut => HeadReadStep::Fail(ApiError::RequestTimedout(None)),
        ReadOutcome::Failed => HeadReadStep::Fail(
            ApiError::RequestReadError(Some(String::from_str("Error Occured while reading request meta data."))),
        ),
    }
}

/// Why reading a body stopped short.
pub enum BodyReadFailure {
    /// The read timed out or would block.
    TimedOut,
    /// The stream ended before the whole body came.
    Eof,
    /// Any other failure.
    Other,
}

/// The failure reported when reading a body stops short.
pub fn body_read_error(f: BodyReadFailure) -> (r: ApiError)
    ensures
        crate::error::carried_message(r) is None,
        f is TimedOut ==> r is RequestTimedout,
        f is Eof ==> r is ClientDisconnected,
        f is Other ==> r is RequestBodyNotRead,
{
    match f {
        BodyReadFailure::TimedOut => ApiError::RequestTimedout(None),
        BodyReadFailure::Eof => ApiError::ClientDisconnected(None),
        BodyReadFailure::Other => ApiError::RequestBodyNotRead(None),
    }
}

/// A `Content-Length` (or `content-length`) header on a request other than
/// `GET` whose value reads as a number is refused as too large exactly when
/// the number exceeds the payload limit; otherwise it becomes the length.
pub proof fn lemma_payload_limit(v: HeadView, t: Seq<char>, max_payload: u64, name: Seq<char>, value: Seq<char>, n: u64)
    requires
        header_parts(t) == Some((name, value)),
        name == "Content-Length"@ || name == "content-length"@,
        v.method != "GET"@,
        parsed_u64(value) == Some(n),
    ensures
        header_step(v, t, max_payload) == Err::<HeadView, HeadError>(HeadError::PayloadTooLarge) <==> n > max_payload,
        n <= max_payload ==> (header_step(v, t, max_payload) matches Ok(v2) && v2.content_len == Some(n)),
{
}

/// A request line whose method the matched route does not allow is refused
/// as not allowed, and the failure names the method.
pub proof fn lemma_method_not_allowed(
    v: HeadView,
    t: Seq<char>,
    patterns: Seq<Seq<char>>,
    methods: Seq<Seq<Method>>,
    m: Method,
    first_line: Seq<char>,
)
    requires
        split_seq(t, ' ').len() == 3,
        protocol_of_name(trimmed_of(split_seq(t, ' ')[2])) is Some,
        has_route(
            patterns,
            match split_once_char(split_seq(t, ' ')[1], '?') {
                Some(uq) => uq.0,
                None => split_seq(t, ' ')[1],
            },
        ),
        method_of_name(split_seq(t, ' ')[0]) == Some(m),
        !methods[first_route(
            patterns,
            match split_once_char(split_seq(t, ' ')[1], '?') {
                Some(uq) => uq.0,
                None => split_seq(t, ' ')[1],
            },
        )].contains(m),
        line_method_resource(first_line).0 == split_seq(t, ' ')[0],
    ensures
        request_line_step(v, t, patterns, methods) == Err::<HeadView, HeadError>(HeadError::MethodNotAllowed),
        head_error_text(HeadError::MethodNotAllowed, line_method_resource(first_line).0, line_method_resource(first_line).1)
            == Some("Method "@ + split_seq(t, ' ')[0] + " not allowed."@),
{
}

/// Relies on `String::from_utf8`: the bytes as text when they are valid
/// UTF-8, nothing otherwise.
#[verifier::external_body]
fn utf8_text(bytes: Vec<u8>) -> (r: Option<String>)
    ensures
        r is Some <==> vstd::utf8::valid_utf8(bytes@),
        r matches Some(t) ==> vstd::utf8::encode_utf8(t@) == bytes@,
{
    String::from_utf8(bytes).ok()
}

/// The text of a body read into memory; a body that is not UTF-8 is
/// refused.
pub fn text_body(bytes: Vec<u8>) -> (r: Result<String, ApiError>)
    ensures
        r is Ok <==> vstd::utf8::valid_utf8(bytes@),
        r matches Ok(t) ==> vstd::utf8::encode_utf8(t@) == bytes@,
        r matches Err(e) ==> e is RequestDataNotUTF8 && (crate::error::carried_message(e) matches Some(m)
            && m@ == "Request body not UTF-8 complient."@),
{
    match utf8_text(bytes) {
        Some(t) => Ok(t),
        None => Err(ApiError::RequestDataNotUTF8(Some(String::from_str("Request body not UTF-8 complient.")))),
    }
}

} // verus!
