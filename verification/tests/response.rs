use rox::headers::Headers;
use rox::response::{Response, ResponseBuilder, ResponseParser};
use rox::status::StatusCode;
use rox::wire::{Cursor, ParseError};

fn cursor(text: &str) -> Cursor {
    Cursor::new(text.as_bytes().to_vec())
}

#[test]
fn it_can_parse_a_response() {
    let body = "Hello, world!";
    let raw = format!(
        "HTTP/1.1 200 OK\r\n\
            Server: Apache\r\n\
            Date: Fri, 21 Jun 2024 12:52:39 GMT\r\n\
            Content-Length: {}\r\n\
            Content-Type: text/html\r\n\
            Cache-Control: no-store\r\n\
            \r\n\
            {}",
        body.len(),
        body,
    );

    let res = Response::parse(&mut cursor(&raw)).unwrap();

    assert_eq!(res.version, "HTTP/1.1");
    assert!(matches!(res.status_code, StatusCode::OK));
    assert_eq!(res.status_message, "OK");
    assert!(matches!(res.headers.get("Server"), Some(s) if s == "Apache"));
    assert!(matches!(res.headers.get("Cache-Control"), Some(s) if s == "no-store"));
    assert_eq!(res.body, body);
    assert_eq!(res.to_string(), raw);
}

#[test]
fn it_can_parse_redirect() {
    let raw = "HTTP/1.0 308 Permanent Redirect\r\n\
        Content-Type: text/plain\r\n\
        Location: https://mattymo.dev/\r\n\
        Refresh: 0;url=https://mattymo.dev/\r\n\
        server: Vercel\r\n\
        \r\n";

    let res = Response::parse(&mut cursor(raw)).unwrap();

    assert_eq!(res.to_string(), raw);
}

#[test]
fn it_can_parse_no_status_message() {
    let raw = "HTTP/2 200 \r\n\
        accept-ranges: bytes\r\n\
        access-control-allow-origin: *\r\n\
        age: 441818\r\n\
        cache-control: public, max-age=0, must-revalidate\r\n\
        content-disposition: inline\r\n\
        content-type: text/html; charset=utf-8\r\n\
        date: Wed, 13 Aug 2025 00:56:14 GMT\r\n\
        etag: \"bc062ceac5bc5a3c1500479170877885\"\r\n\
        server: Vercel\r\n\
        strict-transport-security: max-age=63072000\r\n\
        vary: RSC, Next-Router-State-Tree, Next-Router-Prefetch, Next-Router-Segment-Prefetch\r\n\
        x-matched-path: /\r\n\
        x-nextjs-prerender: 1\r\n\
        x-nextjs-stale-time: 300\r\n\
        x-vercel-cache: HIT\r\n\
        x-vercel-id: iad1::wm9ss-1755046574561-a67fa49d9dae\r\n\
        \r\n";

    let req = Response::parse(&mut cursor(raw)).unwrap();

    assert_eq!(req.status_message, "");
    assert_eq!(req.to_string(), raw);
}

#[test]
fn status_line_without_trailing_space_gets_one() {
    let raw = "HTTP/1.1 204\r\nServer: a\r\n\r\n";
    let res = Response::parse(&mut cursor(raw)).unwrap();
    assert_eq!(res.status_code, StatusCode::NoContent);
    assert_eq!(res.status_message, "");
    assert_eq!(res.to_string(), "HTTP/1.1 204 \r\nServer: a\r\n\r\n");
}

#[test]
fn unknown_status_code_passes_through() {
    let raw = "HTTP/1.1 999 Teapot-Extended\r\nServer: a\r\n\r\n";
    let res = Response::parse(&mut cursor(raw)).unwrap();
    assert_eq!(res.status_code, StatusCode::Unknown(999));
    assert_eq!(res.status_code.code(), 999);
    assert_eq!(res.status_message, "Teapot-Extended");
    assert_eq!(res.to_string(), raw);

    let raw = "HTTP/1.1 799 Odd One\r\nServer: a\r\n\r\n";
    let res = Response::parse(&mut cursor(raw)).unwrap();
    assert_eq!(res.status_code, StatusCode::Unknown(799));
    assert_eq!(res.to_string(), raw);
}

#[test]
fn message_words_are_joined_by_single_spaces() {
    let raw = "HTTP/1.1  404   Not \t Found  \r\nServer: a\r\n\r\n";
    let res = Response::parse(&mut cursor(raw)).unwrap();
    assert_eq!(res.version, "HTTP/1.1");
    assert_eq!(res.status_code, StatusCode::NotFound);
    assert_eq!(res.status_message, "Not Found");
}

#[test]
fn body_without_declared_length_runs_to_the_end_of_the_stream() {
    let body = "b".repeat(10000);
    let raw = format!("HTTP/1.1 200 OK\r\nServer: a\r\n\r\n{}", body);
    let res = Response::parse(&mut cursor(&raw)).unwrap();
    assert_eq!(res.body, body);

    let parser = ResponseParser::new().feed(b"HTTP/1.1 200 OK\r\nServer: a\r\n\r\nabc");
    assert!(parser.is_reading());
    let parser = parser.feed(b"def");
    assert!(parser.is_reading());
    let parser = parser.feed(b"");
    assert!(!parser.is_reading());
    assert_eq!(parser.finish().unwrap().unwrap().body, "abcdef");
}

#[test]
fn body_with_declared_length_ends_the_reading() {
    let parser = ResponseParser::new()
        .feed(b"HTTP/1.1 200 OK\r\nContent-Length: 6\r\n\r\nabc");
    assert!(parser.is_reading());
    let parser = parser.feed(b"def");
    assert!(!parser.is_reading());
    assert_eq!(parser.finish().unwrap().unwrap().body, "abcdef");
}

fn error_of(raw: &[u8]) -> ParseError {
    Response::parse(&mut Cursor::new(raw.to_vec())).unwrap_err()
}

#[test]
fn each_response_error_has_an_input() {
    assert_eq!(error_of(b""), ParseError::InvalidResponse);
    assert_eq!(error_of(b"HTTP/1.1 200 OK\r\nServer: a\r\n"), ParseError::InvalidResponse);
    assert_eq!(error_of(b"HTTP/1.1 200 OK\r\n\r\n"), ParseError::InvalidResponse);
    assert_eq!(error_of(b"\r\nServer: a\r\n\r\n"), ParseError::InvalidResponse);
    assert_eq!(error_of(b"HTTP/1.1\r\nServer: a\r\n\r\n"), ParseError::InvalidResponse);
    assert_eq!(error_of(b"HTTP/1.1 200 OK\r\nServer a\r\n\r\n"), ParseError::InvalidResponse);
    assert_eq!(
        error_of(b"HTTP/1.1 200 OK\r\nContent-Length: x\r\n\r\n"),
        ParseError::MalformedLength
    );
    assert_eq!(error_of(b"HTTP/1.1 200 OK\r\nServer: \xc3\r\n\r\n"), ParseError::InvalidEncoding);
    let parser = ResponseParser::new()
        .feed(b"HTTP/1.1 200 OK\r\nServer: a\r\n\r\n")
        .feed(b"\xe2\x82");
    assert!(parser.is_reading());
    assert_eq!(
        parser.feed(b"").finish().unwrap().unwrap_err(),
        ParseError::InvalidBodyEncoding
    );
    let parser = ResponseParser::new()
        .feed(b"HTTP/1.1 200 OK\r\nServer: a\r\n\r\n")
        .feed(b"\xe2\x82")
        .feed(b"\xac")
        .feed(b"");
    assert_eq!(parser.finish().unwrap().unwrap().body, "\u{20ac}");
}

#[test]
fn non_numeric_status_token_is_kept_as_unrecognized() {
    let raw = "HTTP/1.1 abc Odd\r\nServer: a\r\n\r\n";
    let res = Response::parse(&mut cursor(raw)).unwrap();
    assert_eq!(res.status_code, StatusCode::Unknown(999));
}

#[test]
fn from_gives_the_canonical_message() {
    let mut res = Response::from(StatusCode::NotFound);
    assert_eq!(res.version, "HTTP/1.1");
    assert_eq!(res.status_message, "Not Found");
    assert_eq!(res.to_string(), "HTTP/1.1 404 Not Found\r\n\r\n");

    res.set_status_message("Gone Fishing".to_string())
        .set_status_message("Nowhere".to_string());
    assert_eq!(res.status_code, StatusCode::NotFound);
    assert_eq!(res.to_string(), "HTTP/1.1 404 Nowhere\r\n\r\n");
}

#[test]
fn builder_fills_in_the_defaults() {
    let res = ResponseBuilder::new()
        .add_status_code(StatusCode::OK)
        .build()
        .unwrap();
    assert_eq!(res.to_string(), "HTTP/1.1 200 OK\r\n\r\n");

    assert_eq!(
        ResponseBuilder::new().add_body("x").build().unwrap_err(),
        "missing status code"
    );
}

#[test]
fn builder_declares_the_length_of_a_body() {
    let res = ResponseBuilder::new()
        .add_status_code(StatusCode::InternalServerError)
        .add_header("Connection", "close")
        .add_body("na\u{ef}ve")
        .build()
        .unwrap();
    assert_eq!(
        res.to_string(),
        "HTTP/1.1 500 Internal Server Error\r\n\
            Connection: close\r\n\
            Content-Length: 6\r\n\
            \r\n\
            na\u{ef}ve"
    );
}

#[test]
fn builder_keeps_a_length_that_was_set() {
    let mut headers = Headers::new();
    headers.insert("content-length", "3");
    let res = ResponseBuilder::new()
        .add_version("HTTP/1.0")
        .add_status_code(StatusCode::OK)
        .add_status_message("Fine")
        .add_headers(headers)
        .add_header("X-A", "b")
        .add_body("abcdef")
        .build()
        .unwrap();
    assert_eq!(
        res.to_string(),
        "HTTP/1.0 200 Fine\r\ncontent-length: 3\r\nX-A: b\r\n\r\nabcdef"
    );
}

#[test]
fn write_appends_the_wire_bytes() {
    let res = ResponseBuilder::new()
        .add_status_code(StatusCode::OK)
        .add_status_message("Connection Established")
        .build()
        .unwrap();
    let mut out = b"> ".to_vec();
    res.write(&mut out);
    assert_eq!(out, b"> HTTP/1.1 200 Connection Established\r\n\r\n".to_vec());
}

#[test]
fn response_is_the_same_however_its_bytes_are_cut() {
    let body = "abcdefg\u{20ac}ij".repeat(30);
    let declared = format!(
        "HTTP/1.1 200 OK\r\n\
            Server: a\r\n\
            Content-Length: {}\r\n\
            \r\n\
            {}",
        body.len(),
        body,
    );
    let open_ended = format!("HTTP/1.1 200 OK\r\nServer: a\r\n\r\n{}", body);
    for raw in [declared, open_ended] {
        for size in [1usize, 2, 3, 5, 7, 64, 1000] {
            let mut parser = ResponseParser::new();
            for chunk in raw.as_bytes().chunks(size) {
                assert!(parser.is_reading());
                parser = parser.feed(chunk);
            }
            parser = parser.feed(b"");
            assert!(!parser.is_reading());
            let response = parser.finish().unwrap().unwrap();
            assert_eq!(response.body, body);
            assert_eq!(response.to_string(), raw);
        }
    }
}

#[test]
fn response_body_is_never_longer_than_declared() {
    let mut input = cursor("HTTP/1.1 200 OK\r\nContent-Length: 5\r\n\r\nHelloEXTRA");
    let res = Response::parse(&mut input).unwrap();
    assert_eq!(res.body, "Hello");
    assert_eq!(input.read(4096), b"EXTRA".to_vec());

    let parser = ResponseParser::new()
        .feed(b"HTTP/1.1 200 OK\r\nContent-Length: 5\r\n\r\nHel")
        .feed(b"loHTTP/1.1 204 \r\n");
    assert!(!parser.is_reading());
    assert_eq!(parser.leftover(), b"HTTP/1.1 204 \r\n".to_vec());
    assert_eq!(parser.finish().unwrap().unwrap().body, "Hello");

    let cut = "HTTP/1.1 200 OK\r\nContent-Length: 1\r\n\r\n\u{e9}";
    assert_eq!(error_of(cut.as_bytes()), ParseError::InvalidBodyEncoding);
}
