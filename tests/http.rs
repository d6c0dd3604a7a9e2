use rastapi::connection::{client_keep_alive, error_response, finish_response, keep_going};
use rastapi::error::ApiError;
use rastapi::request::{
    text_body, body_read_error, head_error, head_read_step, new_upload_file_name, next_chunk_len, parse_query,
    split_request_line, BodyPlan, BodyReadFailure, HeadError, HeadReadStep, HttpRequest, ReadOutcome,
};
use rastapi::response::{
    create_response, file_source, not_modified_block, send_file, write_step, ContentNotSupported, FileProbe,
    FileSource, HttpResponse,
    InternalServerError, Notfound404, PayloadTooLarge, ResponseError, WriteOutcome, WriteStep,
};
use rastapi::router::{route_pattern, Route, URLRouter};
use rastapi::text::{decimal, parse_u64};
use rastapi::utils::{ContentType, FileType, HTTPCode, Method, Protocall};

fn header<'a>(h: &'a Vec<(String, String)>, k: &str) -> Option<&'a str> {
    h.iter().find(|(n, _)| n == k).map(|(_, v)| v.as_str())
}

fn lines(v: &[&str]) -> Vec<String> {
    v.iter().map(|s| s.to_string()).collect()
}

fn app_router() -> URLRouter {
    let mut r = URLRouter::new();
    r.add_route("/json/{id}/{name}", Route::new(vec![Method::GET]));
    r.add_route("/download", Route::new(vec![Method::GET]));
    r.add_route("/upload", Route::new(vec![Method::POST]));
    r
}

#[test]
fn status_codes_and_reasons() {
    assert_eq!(HTTPCode::from_u16(404), Some(HTTPCode::NotFound));
    assert_eq!(HTTPCode::from_u16(418).unwrap().get_msg(), "I'm a teapot");
    assert_eq!(HTTPCode::from_u16(304).unwrap().code(), 304);
    assert_eq!(HTTPCode::from_u16(299), None);
    assert_eq!(HTTPCode::NetworkAuthenticationRequired.get_msg(), "Network Authentication Required");
}

#[test]
fn methods_and_protocols() {
    assert_eq!(Method::from_string("PATCH"), Some(Method::PATCH));
    assert_eq!(Method::from_string("get"), None);
    assert_eq!(Method::from_string("OPTIONS"), None);
    assert_eq!(Protocall::from_str("HTTP/1.1"), Some(Protocall::HTTP1_1));
    assert_eq!(Protocall::from_str("HTTP/2"), None);
    assert_eq!(Protocall::HTTP1_0.to_str(), "HTTP/1.0");
}

#[test]
fn content_types() {
    assert_eq!(ContentType::from_header("  IMAGE/JPEG ").ok(), Some(ContentType::JPEG));
    assert_eq!(ContentType::from_header("application/octet-stream").ok(), Some(ContentType::UNKNOWN));
    assert!(matches!(ContentType::from_header("text/html"), Err(ApiError::ContentNotSupported(None))));
    assert_eq!(ContentType::SVG.get_content_type_header(), "Content-Type: image/svg+xml\r\n");
    assert_eq!(FileType::GZIP.extension(), ".gz");
    assert_eq!(FileType::UNKNOWN.extension(), "");
    assert_eq!(FileType::DOCX.to_content_type().to_file_type(), FileType::DOCX);
}

#[test]
fn error_texts() {
    assert_eq!(ApiError::RequestTimedout(None).to_string(), "Request read time out reached.");
    assert_eq!(ApiError::ClientDisconnected(None).to_string(), "Client disconnected prematurely.\n");
    assert_eq!(ApiError::ResourceNotFound(Some("gone".to_string())).to_string(), "gone");
}

#[test]
fn decimal_and_parse() {
    assert_eq!(decimal(0), "0");
    assert_eq!(decimal(2097152), "2097152");
    assert_eq!(decimal(u64::MAX), "18446744073709551615");
    assert_eq!(parse_u64("2097152"), Some(2097152));
    assert_eq!(parse_u64("+12"), Some(12));
    assert_eq!(parse_u64("18446744073709551615"), Some(u64::MAX));
    assert_eq!(parse_u64("18446744073709551616"), None);
    assert_eq!(parse_u64(""), None);
    assert_eq!(parse_u64("+"), None);
    assert_eq!(parse_u64("12a"), None);
    assert_eq!(parse_u64("-1"), None);
}

#[test]
fn create_response_sets_length_header() {
    let resp = create_response("hello", 200, ContentType::TEXT, true).unwrap();
    assert_eq!(resp.code, HTTPCode::OK);
    assert_eq!(resp.content.as_deref(), Some("hello"));
    assert_eq!(resp.content_len, 5);
    assert_eq!(resp.headers, vec![("Content-Length".to_string(), "5".to_string())]);
    assert!(resp.keep_alive);
    assert!(matches!(create_response("x", 999, ContentType::TEXT, false), Err(ResponseError::UnknownStatus)));
}

#[test]
fn add_header_replaces_same_name() {
    let mut resp = create_response("", 200, ContentType::TEXT, false).unwrap();
    resp.add_header("X-A", "1");
    resp.add_header("X-B", "2");
    resp.add_header("X-A", "3");
    assert_eq!(
        resp.headers,
        vec![
            ("Content-Length".to_string(), "0".to_string()),
            ("X-A".to_string(), "3".to_string()),
            ("X-B".to_string(), "2".to_string()),
        ]
    );
}

#[test]
fn head_block_and_inline_text() {
    let mut resp = create_response("{}", 201, ContentType::JSON, false).unwrap();
    resp.add_header("Host", "h");
    let head = resp.head_block(Protocall::HTTP1_1, "Sun, 06 Nov 1994 08:49:37 GMT");
    assert_eq!(
        head,
        "HTTP/1.1 201 Created\r\nDate: Sun, 06 Nov 1994 08:49:37 GMT\r\nContent-Length: 2\r\nHost: h\r\nContent-Type: application/json\r\n\r\n"
    );
    let full = resp.inline_text(Protocall::HTTP1_1, "D").unwrap();
    assert!(full.ends_with("\r\n\r\n{}"));
    let dated = resp.to_string(Protocall::HTTP1_0);
    assert!(dated.starts_with("HTTP/1.0 201 Created\r\nDate: "));
    assert!(dated.contains(" GMT\r\nContent-Length: 2\r\n"));
}

#[test]
fn prebuilt_responses() {
    let r = PayloadTooLarge(1);
    assert_eq!(r.code, HTTPCode::PayloadTooLarge);
    assert_eq!(r.content.as_deref(), Some("Payload too large. Size must be less than 1 MB"));
    assert_eq!(Notfound404("nope").code.code(), 404);
    assert_eq!(ContentNotSupported().code.code(), 415);
    assert_eq!(InternalServerError("x").content.as_deref(), Some("x"));
}

#[test]
fn file_download_with_etag() {
    let resp = send_file(
        "src/test/test.jpg",
        Some("test.jpg".to_string()),
        FileType::JPEG,
        200,
        false,
        FileProbe::Found(1234),
    )
    .unwrap();
    assert!(resp.file_response);
    assert_eq!(resp.content_type, ContentType::JPEG);
    assert_eq!(header(&resp.headers, "Content-Length"), Some("1234"));
    assert_eq!(header(&resp.headers, "Content-Disposition"), Some("attachment; filename=\"test.jpg\""));
    let (valid, etag) = HttpResponse::validate_etag(1234, 1700000000, None);
    assert!(!valid);
    assert_eq!(etag, "1700000000@1234");
    let (valid2, etag2) = HttpResponse::validate_etag(1234, 1700000000, Some(etag.clone()));
    assert!(valid2);
    assert_eq!(etag2, etag);
    let reply = not_modified_block(Protocall::HTTP1_1, "D", &etag2);
    assert_eq!(reply, "HTTP/1.1 304 Not Modified\r\nDate: D\r\nEtag: 1700000000@1234\r\n\r\n");
    assert!(!reply.contains("Content-Length"));
    let (changed, _) = HttpResponse::validate_etag(1235, 1700000000, Some(etag));
    assert!(!changed);
}

#[test]
fn send_file_missing_or_unreadable() {
    let r = send_file("x", None, FileType::PDF, 200, false, FileProbe::Missing).unwrap();
    assert_eq!(r.code, HTTPCode::NotFound);
    let r = send_file("x", None, FileType::PDF, 200, false, FileProbe::Unreadable).unwrap();
    assert_eq!(r.code, HTTPCode::InternalServerError);
    assert!(send_file("x", None, FileType::PDF, 42, false, FileProbe::Found(1)).is_err());
    let r = send_file("x", None, FileType::PDF, 200, false, FileProbe::Found(3)).unwrap();
    assert_eq!(r.headers, vec![("Content-Length".to_string(), "3".to_string())]);
}

#[test]
fn write_loop_steps() {
    assert_eq!(write_step(0, 10, WriteOutcome::Wrote(4), 0, 5000), WriteStep::Continue(4));
    assert_eq!(write_step(4, 10, WriteOutcome::Wrote(6), 0, 5000), WriteStep::Done);
    assert_eq!(write_step(4, 10, WriteOutcome::Wrote(0), 0, 5000), WriteStep::WriteZero);
    assert_eq!(write_step(4, 10, WriteOutcome::WouldBlock, 100, 5000), WriteStep::Continue(4));
    assert_eq!(write_step(4, 10, WriteOutcome::WouldBlock, 5001, 5000), WriteStep::TimedOut);
    assert_eq!(write_step(4, 10, WriteOutcome::Failed, 0, 5000), WriteStep::Failed);
}

#[test]
fn route_patterns() {
    assert_eq!(route_pattern("/json/{id}/{name}"), "^/json/(?P<id>[ -~]+)/(?P<name>[ -~]+)$");
    assert_eq!(route_pattern("/a/{}/{x-y}/{ok_1}"), "^/a/{}/{x-y}/(?P<ok_1>[ -~]+)$");
    assert_eq!(route_pattern("/plain"), "^/plain$");
    assert_eq!(Route::new(vec![]).methods, vec![Method::GET]);
}

#[test]
fn router_matches_in_registration_order() {
    let mut r = app_router();
    let m = r.get_route("/json/5/rony").unwrap();
    assert_eq!(m.index, 0);
    assert_eq!(m.params, vec![("id".to_string(), "5".to_string()), ("name".to_string(), "rony".to_string())]);
    assert!(r.get_route("/json/5").is_none());
    assert!(r.get_route("/other").is_none());
    assert_eq!(r.add_route("/download", Route::new(vec![Method::GET, Method::PUT])), 1);
    assert_eq!(r.len(), 3);
    assert!(r.route(1).allows(Method::PUT));
    assert_eq!(r.remove_route("/download"), Some(1));
    assert_eq!(r.len(), 2);
    assert_eq!(r.get_route("/upload").unwrap().index, 1);
}

#[test]
fn request_line_and_query() {
    let (m, res, p) = split_request_line("GET /a?x=1 HTTP/1.1").unwrap();
    assert_eq!((m.as_str(), res.as_str(), p.as_str()), ("GET", "/a?x=1", "HTTP/1.1"));
    assert!(split_request_line("GET /a").is_none());
    assert!(split_request_line("GET  /a HTTP/1.1").is_none());
    assert_eq!(
        parse_query("a=1&bad&b=2&a=3"),
        vec![("a".to_string(), "3".to_string()), ("b".to_string(), "2".to_string())]
    );
}

#[test]
fn json_path_params_and_echoed_headers() {
    let router = app_router();
    let req = HttpRequest::parse_metadata(
        &lines(&["GET /json/5/rony HTTP/1.1", "X-api-key: abcdef12", "Host: 127.0.0.1:5000", ""]),
        &router,
        512 * 1024 * 1024,
    )
    .unwrap();
    assert_eq!(req.method, "GET");
    assert_eq!(req.protocol, Protocall::HTTP1_1);
    assert_eq!(req.body_plan().unwrap(), BodyPlan::NoBody);
    let m = router.get_route(&req.resource).unwrap();
    let body = "{\n        \"Foo\" : \"Bar\",\n        \"Dummy\" : 5\n        }";
    let mut resp = create_response(body, 200, ContentType::JSON, false).unwrap();
    for (k, v) in req.headers.iter() {
        resp.add_header(k, v);
    }
    for (k, v) in m.params.iter() {
        resp.add_header(k, v);
    }
    assert_eq!(header(&resp.headers, "id"), Some("5"));
    assert_eq!(header(&resp.headers, "name"), Some("rony"));
    assert_eq!(header(&resp.headers, "X-api-key"), Some("abcdef12"));
    assert_eq!(resp.content.as_deref(), Some(body));
}

#[test]
fn query_parameters_are_read() {
    let router = app_router();
    let req = HttpRequest::parse_metadata(&lines(&["GET /download?v=2&w=x HTTP/1.0", ""]), &router, 10).unwrap();
    assert_eq!(req.resource, "/download");
    assert_eq!(req.params, Some(vec![("v".to_string(), "2".to_string()), ("w".to_string(), "x".to_string())]));
    assert_eq!(req.protocol, Protocall::HTTP1_0);
}

#[test]
fn file_upload_goes_to_a_jpeg_file() {
    let router = app_router();
    let req = HttpRequest::parse_metadata(
        &lines(&["POST /upload HTTP/1.1", "Content-Type: image/jpeg", "Content-Length: 1234", ""]),
        &router,
        512 * 1024 * 1024,
    )
    .unwrap();
    assert_eq!(req.content_type, Some(ContentType::JPEG));
    assert_eq!(req.content_len, Some(1234));
    assert_eq!(req.body_plan().unwrap(), BodyPlan::ToFile(1234, FileType::JPEG));
    let name = new_upload_file_name(FileType::JPEG);
    assert_eq!(name.len(), 12);
    assert!(name.ends_with(".jpeg"));
    assert!(name[..7].chars().all(|c| c.is_ascii_alphanumeric()));
}

#[test]
fn content_length_round_trip_reads_exactly() {
    let router = app_router();
    let n: u64 = 20000;
    let req = HttpRequest::parse_metadata(
        &lines(&["POST /upload HTTP/1.1", "Content-Type: text/plain", &format!("Content-Length: {}", decimal(n)), ""]),
        &router,
        1 << 20,
    )
    .unwrap();
    assert_eq!(req.content_len, Some(n));
    let mut remaining = req.content_len.unwrap();
    let mut read = 0;
    while remaining > 0 {
        let c = next_chunk_len(remaining);
        assert!(c > 0 && c <= 8192);
        read += c;
        remaining -= c;
    }
    assert_eq!(read, n);
    assert_eq!(req.body_plan().unwrap(), BodyPlan::ToFile(n, FileType::TEXT));
}

#[test]
fn payload_too_large_closes() {
    let router = app_router();
    let max: u64 = 1024 * 1024;
    let first = "POST /upload HTTP/1.1";
    let e = HttpRequest::parse_metadata(&lines(&[first, "Content-Length: 2097152", ""]), &router, max)
        .err()
        .unwrap();
    assert_eq!(e, HeadError::PayloadTooLarge);
    let api = head_error(e, first);
    assert!(matches!(api, ApiError::PayloadTooLarge(None)));
    let resp = error_response(&api, "127.0.0.1", max as usize).unwrap();
    assert_eq!(resp.code.code(), 413);
    assert!(!resp.keep_alive);
    assert_eq!(resp.content.as_deref(), Some("Payload too large. Size must be less than 1 MB"));
}

#[test]
fn method_not_allowed_message() {
    let router = app_router();
    let first = "POST /json/1/a HTTP/1.1";
    let e = HttpRequest::parse_metadata(&lines(&[first, ""]), &router, 100).err().unwrap();
    assert_eq!(e, HeadError::MethodNotAllowed);
    let api = head_error(e, first);
    assert_eq!(api.message().as_deref(), Some("Method POST not allowed."));
    let resp = error_response(&api, "h", 100).unwrap();
    assert_eq!(resp.code.code(), 405);
    assert_eq!(resp.content.as_deref(), Some("Method POST not allowed."));
    assert_eq!(header(&resp.headers, "Host"), Some("h"));
}

#[test]
fn refused_heads() {
    let router = app_router();
    let parse = |v: &[&str]| HttpRequest::parse_metadata(&lines(v), &router, 100).err();
    assert_eq!(parse(&["GET /download HTTP/3", ""]), Some(HeadError::RequestNotHttp));
    assert_eq!(parse(&["GET /download", ""]), Some(HeadError::RequestNotHttp));
    assert_eq!(parse(&["GET /missing HTTP/1.1", ""]), Some(HeadError::ResourceNotFound));
    assert_eq!(parse(&["FETCH /download HTTP/1.1", ""]), Some(HeadError::MethodNotSupported));
    assert_eq!(parse(&["POST /upload HTTP/1.1", "Content-Length: ten", ""]), Some(HeadError::InvalidContentLength));
    assert_eq!(parse(&["POST /upload HTTP/1.1", "content-type: text/html", ""]), Some(HeadError::ContentNotSupported));
    // A GET ignores a bad length; a blank line ends the head.
    assert!(parse(&["GET /download HTTP/1.1", "Content-Length: ten", ""]).is_none());
    assert!(parse(&["GET /download HTTP/1.1", "", "Content-Length: ten"]).is_none());
    let msg = head_error(HeadError::ResourceNotFound, "GET /missing?q=1 HTTP/1.1");
    assert_eq!(msg.message().as_deref(), Some("Resource /missing not found"));
    let msg = head_error(HeadError::MethodNotSupported, "FETCH /download HTTP/1.1");
    assert_eq!(msg.message().as_deref(), Some("Method FETCH not supported."));
}

#[test]
fn body_plan_needs_content_type() {
    let router = app_router();
    let req = HttpRequest::parse_metadata(&lines(&["POST /upload HTTP/1.1", "Content-Length: 3", ""]), &router, 100).unwrap();
    assert!(matches!(req.body_plan(), Err(ApiError::ContentTypeRequired(None))));
    // Without a length, the body counts as empty and still gets a file.
    let req = HttpRequest::parse_metadata(&lines(&["POST /upload HTTP/1.1", "Content-Type: application/json", ""]), &router, 100).unwrap();
    assert_eq!(req.body_plan().unwrap(), BodyPlan::ToFile(0, FileType::JSON));
}

#[test]
fn keep_alive_decisions() {
    let mut h = vec![("Connection".to_string(), "Keep-Alive".to_string())];
    assert!(client_keep_alive(true, &h, Protocall::HTTP1_0));
    h[0].1 = "close".to_string();
    assert!(!client_keep_alive(true, &h, Protocall::HTTP1_1));
    h[0].1 = "Close".to_string();
    assert!(!client_keep_alive(true, &h, Protocall::HTTP1_1));
    h[0].1 = "upgrade".to_string();
    assert!(client_keep_alive(true, &h, Protocall::HTTP1_1));
    assert!(!client_keep_alive(true, &h, Protocall::HTTP1_0));
    assert!(client_keep_alive(true, &vec![], Protocall::HTTP1_1));
    assert!(!client_keep_alive(true, &vec![], Protocall::HTTP1_0));
    assert!(client_keep_alive(false, &h, Protocall::HTTP1_0));
    assert!(keep_going(1, true, true));
    assert!(!keep_going(0, true, true));
    assert!(!keep_going(3, true, false));
}

#[test]
fn finishing_responses() {
    let mut resp = create_response("x", 200, ContentType::TEXT, true).unwrap();
    assert!(finish_response(&mut resp, "10.0.0.1", true, 5, 10));
    assert_eq!(header(&resp.headers, "Host"), Some("10.0.0.1"));
    assert_eq!(header(&resp.headers, "Connection"), Some("keep-alive"));
    assert_eq!(header(&resp.headers, "Keep-Alive"), Some("timeout=5, max=10"));
    let mut later = create_response("x", 200, ContentType::TEXT, true).unwrap();
    assert!(finish_response(&mut later, "h", false, 5, 10));
    assert_eq!(header(&later.headers, "Connection"), None);
    let mut closing = create_response("x", 200, ContentType::TEXT, false).unwrap();
    assert!(!finish_response(&mut closing, "h", true, 5, 10));
    assert_eq!(header(&closing.headers, "Connection"), Some("close"));
}

#[test]
fn error_responses_for_each_kind() {
    let cases: Vec<(ApiError, Option<u16>)> = vec![
        (ApiError::RequestBodyNotRead(None), Some(500)),
        (ApiError::InvalidContentLength(None), Some(411)),
        (ApiError::ContentNotSupported(None), Some(415)),
        (ApiError::RequestTimedout(None), Some(408)),
        (ApiError::RequestDataNotUTF8(None), Some(413)),
        (ApiError::ContentTypeRequired(None), Some(400)),
        (ApiError::MethodNotSupported(Some("m".to_string())), Some(405)),
        (ApiError::ResourceNotFound(Some("r".to_string())), Some(404)),
        (ApiError::RequestNotHttp(Some("n".to_string())), Some(413)),
        (ApiError::CannotWriteDataToDisk(None), Some(500)),
        (ApiError::RequestReadError(None), Some(500)),
        (ApiError::ClientDisconnected(None), None),
        (ApiError::ClientNotFound(None), None),
        (ApiError::InvalidHeader(None), None),
    ];
    for (e, code) in cases {
        let r = error_response(&e, "h", 1 << 20);
        assert_eq!(r.as_ref().map(|x| x.code.code()), code);
        if let Some(resp) = r {
            assert!(!resp.keep_alive);
        }
    }
}

#[test]
fn next_chunk_sizes() {
    assert_eq!(next_chunk_len(0), 0);
    assert_eq!(next_chunk_len(100), 100);
    assert_eq!(next_chunk_len(8192), 8192);
    assert_eq!(next_chunk_len(9000), 8192);
}

#[test]
fn head_reading_steps() {
    assert!(matches!(head_read_step(ReadOutcome::Got(20), 0, 5000), HeadReadStep::Continue));
    assert!(matches!(head_read_step(ReadOutcome::Got(2), 0, 5000), HeadReadStep::HeadDone));
    assert!(matches!(
        head_read_step(ReadOutcome::Got(0), 0, 5000),
        HeadReadStep::Fail(ApiError::ClientDisconnected(None))
    ));
    assert!(matches!(head_read_step(ReadOutcome::WouldBlock, 10, 5000), HeadReadStep::Continue));
    assert!(matches!(
        head_read_step(ReadOutcome::WouldBlock, 5001, 5000),
        HeadReadStep::Fail(ApiError::RequestTimedout(None))
    ));
    assert!(matches!(
        head_read_step(ReadOutcome::TimedOut, 0, 5000),
        HeadReadStep::Fail(ApiError::RequestTimedout(None))
    ));
    match head_read_step(ReadOutcome::Failed, 0, 5000) {
        HeadReadStep::Fail(e) => {
            assert_eq!(e.to_string(), "Error Occured while reading request meta data.\n");
        }
        _ => panic!("expected a failure"),
    }
    assert!(matches!(body_read_error(BodyReadFailure::TimedOut), ApiError::RequestTimedout(None)));
    assert!(matches!(body_read_error(BodyReadFailure::Eof), ApiError::ClientDisconnected(None)));
    assert!(matches!(body_read_error(BodyReadFailure::Other), ApiError::RequestBodyNotRead(None)));
}

#[test]
fn file_source_choices() {
    assert_eq!(file_source(true, Some(10), 10), FileSource::NotModified);
    assert_eq!(file_source(false, Some(10), 10), FileSource::FromCache);
    assert_eq!(file_source(false, Some(9), 10), FileSource::FromDisk);
    assert_eq!(file_source(false, None, 10), FileSource::FromDisk);
}

#[test]
fn text_bodies_must_be_utf8() {
    assert_eq!(text_body("héllo".as_bytes().to_vec()).unwrap(), "héllo");
    assert!(matches!(text_body(vec![0xff, 0xfe]), Err(ApiError::RequestDataNotUTF8(Some(_)))));
}

#[test]
fn trim_follows_white_space_property() {
    assert_eq!(ContentType::from_header("\u{a0}\u{2003}text/csv\t\r\n").ok(), Some(ContentType::CSV));
    let router = app_router();
    let req = HttpRequest::parse_metadata(&lines(&["  GET /download HTTP/1.1\r\n", "X-A:  v \r\n", "\r\n"]), &router, 10).unwrap();
    assert_eq!(req.method, "GET");
    assert_eq!(req.headers, vec![("X-A".to_string(), " v".to_string())]);
}

#[test]
fn pre_built_lengths() {
    let r = PayloadTooLarge(1);
    assert_eq!(r.content_len, 46);
    assert_eq!(r.content_type, ContentType::TEXT);
    assert!(!r.file_response);
    assert_eq!(r.headers, vec![("Content-Length".to_string(), "46".to_string())]);
}
