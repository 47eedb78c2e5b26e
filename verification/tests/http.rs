use cutforge::http::{
    authorized, byte_range, content_length, head_end, media_headers, parse_request, path_query, query_param,
    range_header, request_complete, route_request, since_param, static_file, tool_http_request, ByteRange, HttpRoute,
    ToolHttp,
};

#[test]
fn body_length_from_the_head() {
    assert_eq!(content_length("POST /rpc HTTP/1.1\r\nHost: x\r\nContent-Length: 42\r\n\r\n"), 42);
    assert_eq!(content_length("POST /rpc HTTP/1.1\r\ncontent-LENGTH:7\r\n\r\n"), 7);
    assert_eq!(content_length("POST /rpc HTTP/1.1\r\nContent-Length: x\r\nContent-Length: 5\r\n\r\n"), 0, "the first line counts");
    assert_eq!(content_length("GET / HTTP/1.1\r\n\r\n"), 0);
    assert_eq!(content_length("Content-Length: 3:9\r\n"), 3, "a value ends at a further colon");
}

#[test]
fn request_completeness() {
    let mut b = b"POST /rpc HTTP/1.1\r\nContent-Length: 4\r\n\r\nab".to_vec();
    assert_eq!(head_end(&b), Some(37));
    assert!(!request_complete(&b));
    b.extend_from_slice(b"cd");
    assert!(request_complete(&b));
    assert!(!request_complete(&b"GET / HTTP/1.1\r\n".to_vec()));
}

#[test]
fn path_query_and_params() {
    assert_eq!(path_query("GET /media?path=a%20b.mp4&x=1 HTTP/1.1"), ("/media".to_string(), "path=a%20b.mp4&x=1".to_string()));
    assert_eq!(path_query("GET"), (String::new(), String::new()));
    assert_eq!(query_param("x=1&path=a=b&path=c", "path").as_deref(), Some("a"), "first piece, up to a further =");
    assert_eq!(query_param("dir", "dir"), None);
    assert_eq!(query_param("", "dir"), None);
    assert_eq!(since_param("since=3&since=8"), 8, "the last one counts");
    assert_eq!(since_param("since=3&since=x"), 0);
    assert_eq!(since_param("a=1"), 0);
}

#[test]
fn token_and_routes() {
    let head = "GET /session HTTP/1.1\r\nAuthorization: Bearer s3cret\r\n\r\n";
    assert!(authorized(head, "GET /session HTTP/1.1", "s3cret"));
    assert!(authorized("GET /session?token=s3cret HTTP/1.1\r\n\r\n", "GET /session?token=s3cret HTTP/1.1", "s3cret"));
    assert!(!authorized("GET /session HTTP/1.1\r\n\r\n", "GET /session HTTP/1.1", "s3cret"));
    assert_eq!(route_request("GET /app.js HTTP/1.1", "/app.js", false), HttpRoute::Static);
    assert_eq!(route_request("GET /session HTTP/1.1", "/session", false), HttpRoute::Unauthorized);
    assert_eq!(route_request("POST /rpc HTTP/1.1", "/rpc", true), HttpRoute::Rpc);
    assert_eq!(route_request("GET /rpc HTTP/1.1", "/rpc", true), HttpRoute::Other, "a tool call is a POST");
    assert_eq!(route_request("GET /media HTTP/1.1", "/media", true), HttpRoute::Media);
    assert_eq!(route_request("GET /media/browse HTTP/1.1", "/media/browse", true), HttpRoute::MediaBrowse);
    assert_eq!(route_request("GET /events HTTP/1.1", "/events", true), HttpRoute::Events);
    assert_eq!(static_file("/"), Some(("text/html; charset=utf-8", "index.html")));
    assert_eq!(static_file("/x"), None);
}

#[test]
fn byte_ranges() {
    assert_eq!(byte_range(None, 100), ByteRange::Whole);
    assert_eq!(byte_range(Some("bytes=0-9"), 100), ByteRange::Part { start: 0, end: 9 });
    assert_eq!(byte_range(Some(" bytes=90- "), 100), ByteRange::Part { start: 90, end: 99 });
    assert_eq!(byte_range(Some("bytes=-10"), 100), ByteRange::Part { start: 90, end: 99 });
    assert_eq!(byte_range(Some("bytes=5-7,20-30"), 100), ByteRange::Part { start: 5, end: 7 });
    assert_eq!(byte_range(Some("bytes=5-100"), 100), ByteRange::Unsatisfiable);
    assert_eq!(byte_range(Some("bytes=-0"), 100), ByteRange::Unsatisfiable);
    assert_eq!(byte_range(Some("bytes=x"), 100), ByteRange::Unsatisfiable);
    assert_eq!(byte_range(Some("items=1-2"), 100), ByteRange::Whole);
    assert_eq!(media_headers(Some((0, 9)), 100), "Accept-Ranges: bytes\r\nContent-Range: bytes 0-9/100\r\n");
    assert_eq!(media_headers(None, 100), "Accept-Ranges: bytes\r\n");
}

#[test]
fn whole_requests() {
    let raw = b"GET /media?path=a.mp4 HTTP/1.1\r\nRange: bytes=0-1\r\nAuthorization: Bearer t\r\n\r\n".to_vec();
    let r = parse_request(&raw, "t");
    assert_eq!(r.route, HttpRoute::Media);
    assert_eq!((r.path.as_str(), r.query.as_str()), ("/media", "path=a.mp4"));
    assert_eq!(r.range.as_deref(), Some("bytes=0-1"));
    assert_eq!(r.body, "");
    assert_eq!(range_header("x\r\nrange:\r\n"), None, "a range line needs a value");
    let rpc = b"POST /rpc HTTP/1.1\r\nContent-Length: 2\r\n\r\n{}".to_vec();
    let r = parse_request(&rpc, "t");
    assert_eq!(r.route, HttpRoute::Unauthorized);
    assert_eq!(r.body, "{}");
}

#[test]
fn tool_channel_requests() {
    let auth = "Authorization: Bearer k";
    assert!(matches!(tool_http_request("POST /rpc HTTP/1.1\r\n\r\n", "k"), ToolHttp::Unauthorized));
    assert!(matches!(tool_http_request(&format!("POST /rpc HTTP/1.1\r\n{auth}\r\n\r\n"), "k"), ToolHttp::Rpc));
    match tool_http_request(&format!("GET /events?root=/p&since=4&x=1 HTTP/1.1\r\n{auth}\r\n\r\n"), "k") {
        ToolHttp::Events { root, since } => assert_eq!((root.as_str(), since), ("/p", 4)),
        _ => panic!("a poll"),
    }
    // the first line's tail stays on the last parameter, which then reads as no number
    match tool_http_request(&format!("GET /events?root=/p&since=4 HTTP/1.1\r\n{auth}\r\n\r\n"), "k") {
        ToolHttp::Events { since, .. } => assert_eq!(since, 0),
        _ => panic!("a poll"),
    }
    assert!(matches!(tool_http_request(&format!("GET /events?since=4 HTTP/1.1\r\n{auth}\r\n\r\n"), "k"), ToolHttp::EventsWithoutRoot));
    assert!(matches!(tool_http_request(&format!("GET / HTTP/1.1\r\n{auth}\r\n\r\n"), "k"), ToolHttp::Other));
}
