use rurl::message::{HttpHeader, Request, RequestBuilder, Response, ResponseBuilder, ResponseError};
use rurl::target::{default_port_for, request_for_url, Target};

fn sample_response() -> Response {
    let mut headers = Vec::<HttpHeader>::new();
    headers.push(HttpHeader { key: "KEY".to_string(), value: "value".to_string() });
    Response {
        headers: headers,
        protocol: "HTTP/1.1".to_string(),
        status: 200,
        message: "OK".to_string(),
        body: "body".to_string(),
    }
}

fn header_pairs(headers: &[HttpHeader]) -> Vec<(String, String)> {
    headers.iter().map(|h| (h.key.clone(), h.value.clone())).collect()
}

#[test]
fn http_it_works() {
    let res = sample_response();
    let expected = "HTTP/1.1 200 OK
KEY: value

body";
    assert_eq!(expected, res.to_string());
}

#[test]
fn main_it_works() {
    let res = sample_response();
    let expected = "HTTP/1.1 200 OK
KEY: value

body";
    assert_eq!(expected, res.to_string());
}

#[test]
fn header_renders_key_colon_value() {
    let h = HttpHeader::new("Content-Type", "text/plain");
    assert_eq!(h.to_string(), "Content-Type: text/plain");
    let empty = HttpHeader::new("", "");
    assert_eq!(empty.to_string(), ": ");
}

#[test]
fn headers_keep_call_order_and_duplicates() {
    let req = RequestBuilder::new()
        .add_header("B", "1")
        .add_header("A", "2")
        .add_header("B", "3")
        .finalize();
    assert_eq!(
        header_pairs(&req.get_headers()),
        vec![
            ("B".to_string(), "1".to_string()),
            ("A".to_string(), "2".to_string()),
            ("B".to_string(), "3".to_string()),
        ]
    );
    let res = ResponseBuilder::new().add_header("X", "1").add_header("X", "2").finalize();
    assert_eq!(
        header_pairs(&res.headers),
        vec![("X".to_string(), "1".to_string()), ("X".to_string(), "2".to_string())]
    );
}

#[test]
fn builder_is_a_reusable_template() {
    let base = RequestBuilder::new().method("GET").add_header("Host", "a");
    let one = base.path("/one");
    let two = base.path("/two").add_header("X", "y");
    assert_eq!(base.path, "");
    assert_eq!(header_pairs(&base.headers).len(), 1);
    assert_eq!(one.path, "/one");
    assert_eq!(two.path, "/two");
    assert_eq!(header_pairs(&one.headers).len(), 1);
    assert_eq!(header_pairs(&two.headers).len(), 2);
    assert_eq!(base.finalize().to_string(), "GET  HTTP/1.1\r\nHost: a\r\n\r\n");

    let rb = ResponseBuilder::new().protocol("HTTP/1.1");
    let with_status = rb.status("404").unwrap();
    assert_eq!(rb.status, 0);
    assert_eq!(with_status.status, 404);
    assert_eq!(with_status.protocol, "HTTP/1.1");
}

#[test]
fn request_renders_wire_text() {
    let req = RequestBuilder::new()
        .method("GET")
        .path("/status")
        .add_header("Host", "localhost:12030")
        .add_header("User-Agent", "rurl/1.0")
        .add_header("Accept", "*/*")
        .body("")
        .finalize();
    assert_eq!(
        req.to_string(),
        "GET /status HTTP/1.1\r\nHost: localhost:12030\r\nUser-Agent: rurl/1.0\r\nAccept: */*\r\n\r\n"
    );
}

#[test]
fn request_without_body_call_ends_with_empty_line() {
    let req = RequestBuilder::new().method("POST").path("/x").finalize();
    assert_eq!(req.body, "");
    let text = req.to_string();
    assert!(text.ends_with("\r\n\r\n"));
    assert_eq!(text, "POST /x HTTP/1.1\r\n\r\n");
}

#[test]
fn request_with_body() {
    let req = RequestBuilder::new()
        .method("POST")
        .path("/submit")
        .add_header("Content-Length", "3")
        .body("a=b")
        .finalize();
    assert_eq!(req.to_string(), "POST /submit HTTP/1.1\r\nContent-Length: 3\r\n\r\na=b");
}

#[test]
fn parse_end_to_end_example() {
    let res = ResponseBuilder::parse_response("HTTP/1.1 200 OK\r\nKEY: value\r\n\r\nbody").unwrap();
    assert_eq!(res.protocol, "HTTP/1.1");
    assert_eq!(res.status, 200);
    assert_eq!(res.message, "OK");
    assert_eq!(header_pairs(&res.headers), vec![("KEY".to_string(), "value".to_string())]);
    assert_eq!(res.body, "body");
}

#[test]
fn parse_without_separator_is_malformed() {
    assert!(matches!(
        ResponseBuilder::parse_response("no-separator-here"),
        Err(ResponseError::MalformedResponse)
    ));
}

#[test]
fn parse_non_numeric_status_is_parse_error() {
    assert!(matches!(
        ResponseBuilder::parse_response("HTTP/1.1 abc OK\r\n\r\nbody"),
        Err(ResponseError::ParseError)
    ));
}

#[test]
fn parse_header_without_colon_is_malformed() {
    assert!(matches!(
        ResponseBuilder::parse_response("HTTP/1.1 200 OK\r\nNoColonHere\r\n\r\n"),
        Err(ResponseError::MalformedResponse)
    ));
}

#[test]
fn parse_short_status_line_is_malformed() {
    assert!(matches!(
        ResponseBuilder::parse_response("HTTP/1.1 200\r\n\r\n"),
        Err(ResponseError::MalformedResponse)
    ));
    assert!(matches!(
        ResponseBuilder::parse_response("HTTP/1.1\r\n\r\n"),
        Err(ResponseError::MalformedResponse)
    ));
}

#[test]
fn parse_keeps_spaces_in_reason_phrase() {
    let res = ResponseBuilder::parse_response("HTTP/1.1 500 Internal Server Error\r\n\r\n").unwrap();
    assert_eq!(res.status, 500);
    assert_eq!(res.message, "Internal Server Error");
    assert_eq!(res.headers.len(), 0);
    assert_eq!(res.body, "");
}

#[test]
fn parse_splits_on_first_separators_only() {
    let res = ResponseBuilder::parse_response(
        "HTTP/1.0 301 Moved\r\nLocation: http://x: y\r\nLocation: again\r\n\r\nrest\r\n\r\nmore\0\0",
    )
    .unwrap();
    assert_eq!(res.protocol, "HTTP/1.0");
    assert_eq!(res.status, 301);
    assert_eq!(
        header_pairs(&res.headers),
        vec![
            ("Location".to_string(), "http://x: y".to_string()),
            ("Location".to_string(), "again".to_string()),
        ]
    );
    assert_eq!(res.body, "rest\r\n\r\nmore\0\0");
}

#[test]
fn parse_status_bounds() {
    let low = ResponseBuilder::parse_response("P -2147483648 m\r\n\r\n").unwrap();
    assert_eq!(low.status, i32::MIN);
    let plus = ResponseBuilder::parse_response("P +7 m\r\n\r\n").unwrap();
    assert_eq!(plus.status, 7);
    assert!(matches!(
        ResponseBuilder::parse_response("P 2147483648 m\r\n\r\n"),
        Err(ResponseError::ParseError)
    ));
    assert!(matches!(
        ResponseBuilder::parse_response("P - m\r\n\r\n"),
        Err(ResponseError::ParseError)
    ));
    assert!(matches!(
        ResponseBuilder::parse_response("P  m\r\n\r\n"),
        Err(ResponseError::ParseError)
    ));
}

#[test]
fn status_setter_rejects_non_numbers() {
    let b = ResponseBuilder::new();
    assert!(matches!(b.status("12x"), Err(ResponseError::ParseError)));
    assert!(matches!(b.status(" 1"), Err(ResponseError::ParseError)));
    assert_eq!(b.status("-15").unwrap().status, -15);
}

#[test]
fn response_wire_round_trip() {
    let built = ResponseBuilder::new()
        .protocol("HTTP/1.1")
        .status("-42")
        .unwrap()
        .message("Not Quite OK")
        .add_header("K", "v: w")
        .add_header("K", "")
        .body("payload\r\n\r\nmore")
        .finalize();
    let mut wire = String::new();
    wire.push_str("HTTP/1.1 -42 Not Quite OK\r\n");
    for h in &built.headers {
        wire.push_str(&h.to_string());
        wire.push_str("\r\n");
    }
    wire.push_str("\r\n");
    wire.push_str(&built.body);
    let back = ResponseBuilder::parse_response(&wire).unwrap();
    assert_eq!(back.protocol, built.protocol);
    assert_eq!(back.status, built.status);
    assert_eq!(back.message, built.message);
    assert_eq!(header_pairs(&back.headers), header_pairs(&built.headers));
    assert_eq!(back.body, built.body);
}

#[test]
fn response_display_negative_status_and_no_headers() {
    let res = ResponseBuilder::new().protocol("HTTP/2").status("-7").unwrap().message("x").finalize();
    assert_eq!(res.to_string(), "HTTP/2 -7 x\n\n");
}

#[test]
fn default_ports() {
    assert_eq!(default_port_for("https"), 443);
    assert_eq!(default_port_for("http"), 80);
    assert_eq!(default_port_for("ftp"), 80);
    assert_eq!(default_port_for("httpss"), 80);
}

#[test]
fn target_reads_url_parts() {
    let t = Target::parse("https://example.com/a/b?q=1").unwrap();
    assert_eq!(t.scheme, "https");
    assert_eq!(t.host.as_deref(), Some("example.com"));
    assert_eq!(t.port, None);
    assert_eq!(t.path, "/a/b");
    assert_eq!(t.port_or_default(), 443);
    assert_eq!(t.address().unwrap(), "example.com:443");
    let p = Target::parse("http://localhost:8080").unwrap();
    assert_eq!(p.port, Some(8080));
    assert_eq!(p.path, "/");
    assert!(Target::parse("not a url").is_none());
}

#[test]
fn request_for_url_builds_client_request() {
    let req: Request = request_for_url("GET", "http://localhost:12030/status").unwrap();
    assert_eq!(
        req.to_string(),
        "GET /status HTTP/1.1\r\nHost: localhost:12030\r\nUser-Agent: rurl/1.0\r\nAccept: */*\r\n\r\n"
    );
    assert!(request_for_url("GET", "::invalid").is_none());
    assert!(request_for_url("GET", "mailto:someone@example.com").is_none());
}
