use fywaf::config::{SiteConfig, UpstreamConfig};
use fywaf::engine::Decision;
use fywaf::http::{
    find_header_end, parse_head, HttpRequest, ReadAction, RequestError, RequestReader,
};
use fywaf::ordered::TextMap;
use fywaf::proxy::{
    blocked_response, build_upstream_request, is_hop_by_hop, merge_upstream_path, prepare_sites,
    reason_phrase, request_meta, route, Route, Upstream, UpstreamError,
};

fn headers(pairs: &[(&str, &str)]) -> TextMap<String> {
    let mut map = TextMap::new();
    for (k, v) in pairs {
        map.insert(k.to_string(), v.to_string());
    }
    map
}

fn request(path: &str, pairs: &[(&str, &str)], body: &[u8]) -> HttpRequest {
    HttpRequest {
        method: "POST".to_string(),
        path: path.to_string(),
        version: "HTTP/1.1".to_string(),
        headers: headers(pairs),
        body: body.to_vec(),
    }
}

fn head_error(head: &str) -> RequestError {
    parse_head(head.as_bytes()).unwrap_err()
}

fn read_in_chunks(bytes: &[u8], size: usize) -> Result<HttpRequest, RequestError> {
    let mut reader = RequestReader::new();
    let mut at = 0;
    loop {
        match reader.action()? {
            ReadAction::ReadHead(most) | ReadAction::ReadBody(most) => {
                let end = bytes.len().min(at + size.min(most));
                reader = reader.received(&bytes[at..end])?;
                at = end;
            }
            ReadAction::Complete => return Ok(reader.finish().unwrap()),
        }
    }
}

#[test]
fn parse_upstream_url() {
    let up = Upstream::parse("http://127.0.0.1:9000/api").unwrap();
    assert_eq!(up.host, "127.0.0.1");
    assert_eq!(up.port, 9000);
    assert_eq!(up.base_path, "/api");
}

#[test]
fn merge_path() {
    assert_eq!(merge_upstream_path("/", "/a"), "/a");
    assert_eq!(merge_upstream_path("/api", "/v1"), "/api/v1");
    assert_eq!(merge_upstream_path("/api", "/"), "/api");
}

#[test]
fn header_end_detected() {
    let data = b"GET / HTTP/1.1\r\nHost: x\r\n\r\nbody";
    assert_eq!(find_header_end(data), Some(23));
}

#[test]
fn upstream_urls() {
    let up = Upstream::parse("http://host").unwrap();
    assert_eq!((up.host.as_str(), up.port, up.base_path.as_str()), ("host", 80, "/"));
    assert_eq!(up.authority(), "host:80");
    assert_eq!(Upstream::parse("http://host/").unwrap().base_path, "/");
    assert_eq!(Upstream::parse("http://host/a/b/").unwrap().base_path, "/a/b");
    assert_eq!(Upstream::parse("http://host/a//").unwrap().base_path, "/a/");
    let error = |url: &str| Upstream::parse(url).unwrap_err();
    assert_eq!(error("https://x"), UpstreamError::NotHttp);
    assert_eq!(error("http://"), UpstreamError::EmptyUrl);
    assert_eq!(error("http:///a"), UpstreamError::EmptyAuthority);
    assert_eq!(error("http://h:x"), UpstreamError::InvalidPort);
    assert_eq!(error("http://h:65536"), UpstreamError::InvalidPort);
    assert_eq!(error("http://:80"), UpstreamError::EmptyHost);
    assert_eq!(error("http://:x").message(), "invalid upstream port");
    assert_eq!(UpstreamError::NotHttp.message(), "only http:// upstream is supported");
    assert_eq!(UpstreamError::EmptyUrl.message(), "empty upstream URL");
    assert_eq!(UpstreamError::EmptyAuthority.message(), "upstream authority is empty");
    assert_eq!(UpstreamError::EmptyHost.message(), "upstream host is empty");
}

#[test]
fn upstreams_come_back_from_their_parts() {
    for (host, port, base_path) in [("h", 80, "/"), ("10.0.0.1", 65535, "/a/b"), ("x", 0, "/a//b")] {
        let url = format!("http://{}:{}{}", host, port, base_path);
        let up = Upstream::parse(&url).unwrap();
        assert_eq!((up.host.as_str(), up.port, up.base_path.as_str()), (host, port, base_path));
        assert_eq!(format!("http://{}{}", up.authority(), up.base_path), url);
    }
}

#[test]
fn sites_are_prepared_in_order() {
    let site = |id: &str, url: &str| SiteConfig {
        id: id.to_string(),
        listen: "x:1".to_string(),
        upstream: UpstreamConfig { url: url.to_string() },
        profile: "p".to_string(),
    };
    let ready = prepare_sites(&vec![site("a", "http://h:1"), site("b", "http://h:2/x")]).unwrap();
    assert_eq!(ready.len(), 2);
    assert_eq!((ready[1].id.as_str(), ready[1].upstream.port), ("b", 2));
    assert_eq!(ready[0].profile_id, "p");
    let failed = prepare_sites(&vec![site("a", "http://"), site("b", "ftp://")]);
    assert_eq!(failed.unwrap_err(), UpstreamError::EmptyUrl);
}

#[test]
fn paths_get_a_slash() {
    assert_eq!(merge_upstream_path("/", "a"), "/a");
    assert_eq!(merge_upstream_path("/api", "a?b"), "/api/a?b");
    assert_eq!(merge_upstream_path("/api", ""), "/api");
    assert_eq!(merge_upstream_path("/", ""), "/");
}

#[test]
fn header_end_is_the_first() {
    assert_eq!(find_header_end(b""), None);
    assert_eq!(find_header_end(b"\r\n\r"), None);
    assert_eq!(find_header_end(b"\r\n\r\n\r\n\r\n"), Some(0));
    assert_eq!(find_header_end(b"a\r\r\n\r\n"), Some(2));
}

#[test]
fn heads_are_parsed() {
    let head = parse_head(
        b"POST  /a?b HTTP/1.0\r\nHost: x\r\n\r\nX-A :  1 \r\nx-a:2\r\nContent-Length: 12",
    )
    .unwrap();
    assert_eq!(head.method, "POST");
    assert_eq!(head.path, "/a?b");
    assert_eq!(head.version, "HTTP/1.0");
    assert_eq!(head.headers.get("host").map(|v| v.as_str()), Some("x"));
    assert_eq!(head.headers.get("x-a").map(|v| v.as_str()), Some("2"));
    assert_eq!(head.headers.len(), 3);
    assert_eq!(head.content_length, 12);
}

#[test]
fn heads_that_are_refused() {
    assert_eq!(head_error(""), RequestError::MissingMethod);
    assert_eq!(head_error("GET"), RequestError::MissingPath);
    assert_eq!(head_error("GET /"), RequestError::MissingVersion);
    assert_eq!(head_error("GET / HTTP/1.1 x"), RequestError::InvalidRequestLine);
    assert_eq!(head_error("GET / HTTP/2"), RequestError::UnsupportedVersion);
    assert_eq!(head_error("GET / HTTP/1.1\r\nbroken"), RequestError::MalformedHeader);
    assert_eq!(
        head_error("GET / HTTP/1.1\r\nTransfer-Encoding: gzip, Chunked"),
        RequestError::ChunkedBody
    );
    assert_eq!(
        head_error("GET / HTTP/1.1\r\nContent-Length: -1"),
        RequestError::InvalidContentLength
    );
    assert_eq!(
        head_error("GET / HTTP/1.1\r\nContent-Length: 10485761"),
        RequestError::BodyTooLarge
    );
    assert_eq!(
        parse_head(b"GET /\xff HTTP/1.1").unwrap_err(),
        RequestError::HeadersNotUtf8
    );
    assert!(parse_head(b"GET / HTTP/1.1\r\nContent-Length: 10485760").is_ok());
}

#[test]
fn request_messages() {
    let say = |e: RequestError| e.message();
    assert_eq!(say(RequestError::HeadersTooLarge), "request headers exceed 65536 bytes");
    assert_eq!(say(RequestError::ClosedBeforeHeaders), "client closed before sending headers");
    assert_eq!(say(RequestError::HeadersNotUtf8), "request headers are not utf-8");
    assert_eq!(say(RequestError::MissingMethod), "missing method");
    assert_eq!(say(RequestError::MissingPath), "missing path");
    assert_eq!(say(RequestError::MissingVersion), "missing version");
    assert_eq!(say(RequestError::InvalidRequestLine), "invalid request line");
    assert_eq!(say(RequestError::UnsupportedVersion), "only HTTP/1.x is supported");
    assert_eq!(say(RequestError::MalformedHeader), "malformed header line");
    assert_eq!(
        say(RequestError::ChunkedBody),
        "chunked request bodies are not supported in MVP"
    );
    assert_eq!(say(RequestError::InvalidContentLength), "invalid content-length");
    assert_eq!(say(RequestError::BodyTooLarge), "request body exceeds 10485760 bytes");
    assert_eq!(say(RequestError::ClosedInBody), "client closed while sending body");
    assert_eq!(say(RequestError::UpstreamTooLarge), "upstream request is too large");
}

#[test]
fn requests_do_not_depend_on_chunks() {
    let bytes = b"PUT /p HTTP/1.1\r\nContent-Length: 5\r\n\r\nhello";
    for size in [1, 2, 3, 7, 1000] {
        let request = read_in_chunks(bytes, size).unwrap();
        assert_eq!(request.method, "PUT");
        assert_eq!(request.path, "/p");
        assert_eq!(request.body, b"hello");
    }
}

#[test]
fn body_may_be_longer_than_announced() {
    let bytes = b"PUT /p HTTP/1.1\r\nContent-Length: 2\r\n\r\nhello";
    assert_eq!(read_in_chunks(bytes, 1000).unwrap().body, b"hello");
    assert_eq!(read_in_chunks(b"GET / HTTP/1.1\r\n\r\n", 1000).unwrap().body, b"");
}

#[test]
fn connections_that_close_early() {
    assert_eq!(read_in_chunks(b"GET / HT", 5).unwrap_err(), RequestError::ClosedBeforeHeaders);
    assert_eq!(
        read_in_chunks(b"GET / HTTP/1.1\r\nContent-Length: 9\r\n\r\nabc", 1000).unwrap_err(),
        RequestError::ClosedInBody
    );
    let endless = vec![b'a'; 70000];
    assert_eq!(read_in_chunks(&endless, 2048).unwrap_err(), RequestError::HeadersTooLarge);
}

#[test]
fn actions_of_the_reader() {
    let reader = RequestReader::new();
    assert_eq!(reader.action(), Ok(ReadAction::ReadHead(2048)));
    let reader = reader.received(b"GET / HTTP/1.1\r\nContent-Length: 9\r\n\r\nabc").unwrap();
    assert_eq!(reader.action(), Ok(ReadAction::ReadBody(6)));
    assert!(reader.finish().is_none());
    assert!(RequestReader::new().finish().is_none());
}

#[test]
fn meta_splits_path_and_query() {
    let req = request("/a?b=1?c", &[("user-agent", "curl"), ("host", "h")], b"x\xc3\xa4");
    let meta = request_meta(&req, "10.0.0.1");
    assert_eq!(meta.client_ip, "10.0.0.1");
    assert_eq!(meta.method, "POST");
    assert_eq!(meta.path, "/a");
    assert_eq!(meta.query.as_deref(), Some("b=1?c"));
    assert_eq!(meta.user_agent.as_deref(), Some("curl"));
    assert_eq!(meta.headers.len(), 2);
    assert_eq!(meta.headers.get("host").map(|v| v.as_str()), Some("h"));
    assert_eq!(meta.body.as_deref(), Some("xä"));
    let plain = request_meta(&request("/a", &[], b""), "::1");
    assert_eq!((plain.query, plain.user_agent, plain.body), (None, None, None));
    let broken = request_meta(&request("/a", &[], b"a\xff"), "::1");
    assert_eq!(broken.body.as_deref(), Some("a\u{fffd}"));
}

#[test]
fn decisions_are_followed() {
    let decision = |allow: bool| Decision {
        profile_id: "p".to_string(),
        allow,
        status_code: 429,
        message: None,
        rule_id: None,
    };
    assert_eq!(route(&decision(true)), Route::Forward);
    assert_eq!(route(&decision(false)), Route::Refuse(429));
}

#[test]
fn refused_requests_are_answered() {
    assert_eq!(
        blocked_response(403),
        "HTTP/1.1 403 Forbidden\r\nContent-Type: text/plain; charset=utf-8\r\n\
Content-Length: 23\r\nConnection: close\r\n\r\nblocked by fywaf (403)\n"
    );
    let phrases = [
        (400, "Bad Request"),
        (405, "Method Not Allowed"),
        (413, "Payload Too Large"),
        (431, "Request Header Fields Too Large"),
        (500, "Internal Server Error"),
        (502, "Bad Gateway"),
        (418, "Blocked"),
    ];
    for (status, phrase) in phrases {
        assert_eq!(reason_phrase(status), phrase);
    }
}

#[test]
fn hop_by_hop_headers() {
    for name in [
        "connection",
        "proxy-connection",
        "keep-alive",
        "te",
        "trailer",
        "transfer-encoding",
        "upgrade",
    ] {
        assert!(is_hop_by_hop(name));
    }
    assert!(!is_hop_by_hop("host"));
    assert!(!is_hop_by_hop("Connection"));
}

#[test]
fn requests_are_passed_on() {
    let upstream = Upstream::parse("http://up:81/api").unwrap();
    let req = request(
        "/v1?x",
        &[
            ("host", "site"),
            ("connection", "keep-alive"),
            ("accept", "*/*"),
            ("x-forwarded-for", "1.1.1.1"),
        ],
        b"\xffbody",
    );
    let bytes = build_upstream_request(&req, &upstream, "2.2.2.2").unwrap();
    let mut expected = b"POST /api/v1?x HTTP/1.1\r\nHost: up:81\r\naccept: */*\r\n\
x-forwarded-for: 1.1.1.1, 2.2.2.2\r\nConnection: close\r\nContent-Length: 5\r\n\r\n"
        .to_vec();
    expected.extend_from_slice(b"\xffbody");
    assert_eq!(bytes, expected);
}

#[test]
fn requests_without_a_body() {
    let upstream = Upstream::parse("http://up").unwrap();
    let bytes = build_upstream_request(&request("/", &[], b""), &upstream, "::1").unwrap();
    assert_eq!(
        String::from_utf8(bytes).unwrap(),
        "POST / HTTP/1.1\r\nHost: up:80\r\nx-forwarded-for: ::1\r\nConnection: close\r\n\
Content-Length: 0\r\n\r\n"
    );
    let announced = request("/", &[("content-length", "0"), ("x-forwarded-for", "")], b"");
    let bytes = build_upstream_request(&announced, &upstream, "::1").unwrap();
    assert_eq!(
        String::from_utf8(bytes).unwrap(),
        "POST / HTTP/1.1\r\nHost: up:80\r\ncontent-length: 0\r\nx-forwarded-for: ::1\r\n\
Connection: close\r\n\r\n"
    );
}

#[test]
fn dropped_headers_make_no_difference() {
    let upstream = Upstream::parse("http://up").unwrap();
    let with = request("/", &[("a", "1"), ("te", "trailers"), ("host", "x")], b"");
    let without = request("/", &[("a", "1")], b"");
    assert_eq!(
        build_upstream_request(&with, &upstream, "::1").unwrap(),
        build_upstream_request(&without, &upstream, "::1").unwrap()
    );
}

#[test]
fn requests_that_are_too_large_are_not_passed_on() {
    let upstream = Upstream::parse("http://up").unwrap();
    let large = request("/", &[], &vec![0u8; 65536 + 10485760 + 1024]);
    assert_eq!(
        build_upstream_request(&large, &upstream, "::1").unwrap_err(),
        RequestError::UpstreamTooLarge
    );
}
