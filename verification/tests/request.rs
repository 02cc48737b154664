use rox::headers::Headers;
use rox::request::{Method, Request, RequestBuilder, RequestParser};
use rox::status::StatusCode;
use rox::wire::{Cursor, ParseError};

fn cursor(text: &str) -> Cursor {
    Cursor::new(text.as_bytes().to_vec())
}

#[test]
fn it_can_parse() {
    let raw_req =
        "GET / HTTP/1.1\r\nHost: mattymo.dev\r\nAccept: */*\r\nConnection: close\r\n\r\n";

    let req = Request::parse(&mut cursor(raw_req)).unwrap();

    assert_eq!(req.method, Method::GET);
    assert_eq!(req.resource, "/");
    assert_eq!(req.version, "HTTP/1.1");
    assert!(matches!(req.headers.get("host"), Some(value) if value == "mattymo.dev"));
    assert!(matches!(req.headers.get("accept"), Some(value) if value == "*/*"));
    assert!(matches!(req.headers.get("connection"), Some(value) if value == "close"));
}

#[test]
fn it_can_parse_a_body() {
    let body = "Hello, world!";
    let raw_req: String = format!(
        "GET / HTTP/1.1\r\n\
            Host: mattymo.dev\r\n\
            Accept: */*\r\n\
            Connection: close\r\n\
            Content-Length: {}\r\n\
            \r\n\
            {}",
        body.len(),
        body,
    );

    let req = Request::parse(&mut cursor(&raw_req)).unwrap();

    assert_eq!(req.method, Method::GET);
    assert_eq!(req.resource, "/");
    assert_eq!(req.version, "HTTP/1.1");
    assert!(matches!(req.headers.get("host"), Some(value) if value == "mattymo.dev"));
    assert!(matches!(req.headers.get("accept"), Some(value) if value == "*/*"));
    assert!(matches!(req.headers.get("connection"), Some(value) if value == "close"));
    assert_eq!(req.body, body);
}

#[test]
fn it_can_parse_connect_method() {
    let raw_req = "CONNECT google.com:80 HTTP/1.1\r\n\
        Host: google.com:80\r\n\
        User-Agent: curl/8.7.1\r\n\
        Proxy-Connection: Keep-Alive\r\n\
        \r\n";

    let req = Request::parse(&mut cursor(raw_req)).unwrap();

    assert_eq!(req.method, Method::CONNECT);
    assert_eq!(req.resource, "google.com:80");
    assert_eq!(req.version, "HTTP/1.1");
    assert!(matches!(req.headers.get("host"), Some(value) if value == "google.com:80"));
    assert!(matches!(req.headers.get("user-agent"), Some(value) if value == "curl/8.7.1"));
    assert!(
        matches!(req.headers.get("proxy-connection"), Some(value) if value == "Keep-Alive")
    );
}

#[test]
fn it_can_parse_large_body() {
    let body = "a".repeat(1024 * 2);
    let raw_req: String = format!(
        "POST /data HTTP/1.1\r\n\
            Host: mattymo.dev\r\n\
            Accept: */*\r\n\
            Connection: close\r\n\
            Content-Length: {}\r\n\
            \r\n\
            {}",
        body.len(),
        body,
    );

    let req = Request::parse(&mut cursor(&raw_req)).unwrap();

    assert_eq!(req.method, Method::POST);
    assert_eq!(req.resource, "/data");
    assert_eq!(req.body, body);
}

#[test]
fn it_can_display_a_large_body() {
    let body = "a".repeat(1024 * 2);
    let raw_req: String = format!(
        "POST /data HTTP/1.1\r\n\
            Host: mattymo.dev\r\n\
            Accept: */*\r\n\
            Connection: close\r\n\
            Content-Length: {}\r\n\
            \r\n\
            {}",
        body.len(),
        body,
    );

    let req = Request::parse(&mut cursor(&raw_req)).unwrap();

    assert_eq!(req.to_string(), raw_req);
}

#[test]
fn it_can_build_a_request() {
    let request = RequestBuilder::new()
        .add_method(Method::GET)
        .add_resource("/")
        .add_header("Host", "example.com")
        .add_header("Connection", "close")
        .add_header("Accept", "*/*")
        .build()
        .unwrap();

    let expected =
        "GET / HTTP/1.1\r\nHost: example.com\r\nConnection: close\r\nAccept: */*\r\n\r\n";

    assert_eq!(request.to_string(), expected);
}

#[test]
fn it_can_build_a_request_with_body() {
    let body = "My super awesome post for my blog";

    let mut headers = Headers::new();
    headers.insert("Host", "example.com");
    headers.insert("Connection", "close");
    headers.insert("Accept", "*/*");
    headers.insert("Content-Length", &body.len().to_string());
    headers.insert("Content-Type", "text/plain");

    let request = RequestBuilder::new()
        .add_method(Method::POST)
        .add_resource("/api/posts")
        .add_version("HTTP/2")
        .add_headers(headers)
        .add_body(body)
        .build()
        .unwrap();

    let expected = format!(
        "POST /api/posts HTTP/2\r\n\
            Host: example.com\r\n\
            Connection: close\r\n\
            Accept: */*\r\n\
            Content-Length: {}\r\n\
            Content-Type: text/plain\r\n\
            \r\n\
            {}",
        body.len(),
        body,
    );

    assert_eq!(request.to_string(), expected);
}

#[test]
fn builder_names_the_missing_field() {
    assert_eq!(RequestBuilder::new().build().unwrap_err(), "missing method");
    assert_eq!(
        RequestBuilder::new().add_resource("/").build().unwrap_err(),
        "missing method"
    );
    assert_eq!(
        RequestBuilder::new().add_method(Method::GET).build().unwrap_err(),
        "missing resource"
    );
}

#[test]
fn every_method_reads_back_from_its_token() {
    let all = [
        (Method::CONNECT, "CONNECT"),
        (Method::GET, "GET"),
        (Method::POST, "POST"),
        (Method::PUT, "PUT"),
        (Method::PATCH, "PATCH"),
        (Method::DELETE, "DELETE"),
        (Method::HEAD, "HEAD"),
        (Method::OPTIONS, "OPTIONS"),
        (Method::TRACE, "TRACE"),
    ];
    for (method, token) in all {
        assert_eq!(method.as_str(), token);
        assert_eq!(method.to_string(), token);
        assert_eq!(Method::parse(token), Some(method));
    }
    assert_eq!(Method::parse("get"), None);
    assert_eq!(Method::parse("GETS"), None);
    assert_eq!(Method::parse(""), None);
}

#[test]
fn body_of_declared_length_is_read_whole() {
    let raw = "POST /x HTTP/1.1\r\nContent-Length: 13\r\n\r\nHello, world!";
    let req = Request::parse(&mut cursor(raw)).unwrap();
    assert_eq!(req.body, "Hello, world!");
    assert_eq!(req.body.len(), 13);
}

#[test]
fn body_cut_short_by_the_end_of_the_stream_is_accepted() {
    let raw = "POST /x HTTP/1.1\r\nContent-Length: 13\r\n\r\nHello";
    let req = Request::parse(&mut cursor(raw)).unwrap();
    assert_eq!(req.body, "Hello");
}

#[test]
fn body_that_arrives_in_a_later_chunk_is_read() {
    let parser = RequestParser::new();
    assert!(parser.is_reading());
    let parser = parser.feed(b"POST /x HTTP/1.1\r\nContent-Length: 13\r\n\r");
    assert!(parser.is_reading());
    let parser = parser.feed(b"\nHello");
    assert!(parser.is_reading());
    let parser = parser.feed(b", world!");
    assert!(!parser.is_reading());
    let req = parser.finish().unwrap().unwrap();
    assert_eq!(req.body, "Hello, world!");
}

#[test]
fn delimiter_split_over_two_chunks_is_found() {
    let parser = RequestParser::new()
        .feed(b"GET / HTTP/1.1\r\nHost: a\r\n")
        .feed(b"\r\n");
    assert!(!parser.is_reading());
    let req = parser.finish().unwrap().unwrap();
    assert_eq!(req.method, Method::GET);
    assert_eq!(req.body, "");
}

#[test]
fn early_close_in_the_body_ends_the_request() {
    let parser = RequestParser::new()
        .feed(b"POST /x HTTP/1.1\r\nContent-Length: 13\r\n\r\nHello");
    assert!(parser.is_reading());
    assert!(parser.finish().is_none());
    let parser = RequestParser::new()
        .feed(b"POST /x HTTP/1.1\r\nContent-Length: 13\r\n\r\nHello")
        .feed(b"");
    let req = parser.finish().unwrap().unwrap();
    assert_eq!(req.body, "Hello");
}

#[test]
fn stream_closed_before_any_byte_is_told_apart() {
    assert_eq!(Request::parse(&mut cursor("")).unwrap_err(), ParseError::Closed);
    assert_eq!(ParseError::Closed.status_code(), None);
}

fn error_of(raw: &[u8]) -> ParseError {
    Request::parse(&mut Cursor::new(raw.to_vec())).unwrap_err()
}

#[test]
fn each_error_has_an_input() {
    assert_eq!(error_of(b"GET / HTTP/1.1\r\nHost: a\r\n"), ParseError::MalformedRequest);
    assert_eq!(error_of(b"GET / HTTP/1.1\r\n\r\n"), ParseError::MalformedRequest);
    assert_eq!(error_of(b"\r\nHost: a\r\n\r\n"), ParseError::MalformedRequest);
    assert_eq!(error_of(b"GET\r\nHost: a\r\n\r\n"), ParseError::MalformedRequest);
    assert_eq!(error_of(b"GET /\r\nHost: a\r\n\r\n"), ParseError::MalformedRequest);
    assert_eq!(error_of(b"BREW / HTTP/1.1\r\nHost: a\r\n\r\n"), ParseError::MethodNotAllowed);
    assert_eq!(error_of(b"BREW\r\nHost: a\r\n\r\n"), ParseError::MethodNotAllowed);
    assert_eq!(error_of(b"GET / HTTP/1.1\r\nHost a\r\n\r\n"), ParseError::MalformedRequest);
    assert_eq!(
        error_of(b"GET / HTTP/1.1\r\nContent-Length: ten\r\n\r\n"),
        ParseError::MalformedLength
    );
    assert_eq!(
        error_of(b"GET / HTTP/1.1\r\nContent-Length: -1\r\n\r\n"),
        ParseError::MalformedLength
    );
    assert_eq!(
        error_of(b"GET / HTTP/1.1\r\nContent-Length: 99999999999999999999999999\r\n\r\n"),
        ParseError::MalformedLength
    );
    assert_eq!(error_of(b"GET / HTTP/1.1\r\nHost: \xff\r\n\r\n"), ParseError::InvalidEncoding);

    let parser = RequestParser::new()
        .feed(b"POST / HTTP/1.1\r\nContent-Length: 2\r\n\r\n")
        .feed(b"\xff\xfe");
    assert_eq!(parser.finish().unwrap().unwrap_err(), ParseError::InvalidBodyEncoding);

    let parser = RequestParser::new()
        .feed(b"POST / HTTP/1.1\r\nContent-Length: 4\r\n\r\n")
        .feed(b"ab\xc3")
        .feed(b"");
    assert_eq!(parser.finish().unwrap().unwrap_err(), ParseError::InvalidBodyEncoding);

    let parser = RequestParser::new().feed(b"POST / HT").fail();
    assert_eq!(parser.finish().unwrap().unwrap_err(), ParseError::ReadFailed);

    let parser = RequestParser::new()
        .feed(b"POST / HTTP/1.1\r\nContent-Length: 4\r\n\r\n")
        .fail();
    assert_eq!(parser.finish().unwrap().unwrap_err(), ParseError::BodyReadFailed);
}

#[test]
fn errors_map_to_statuses() {
    assert_eq!(ParseError::MalformedRequest.status_code(), Some(StatusCode::BadRequest));
    assert_eq!(ParseError::InvalidResponse.status_code(), Some(StatusCode::BadRequest));
    assert_eq!(ParseError::MalformedLength.status_code(), Some(StatusCode::BadRequest));
    assert_eq!(ParseError::InvalidEncoding.status_code(), Some(StatusCode::BadRequest));
    assert_eq!(ParseError::InvalidBodyEncoding.status_code(), Some(StatusCode::BadRequest));
    assert_eq!(ParseError::BodyReadFailed.status_code(), Some(StatusCode::BadRequest));
    assert_eq!(
        ParseError::MethodNotAllowed.status_code(),
        Some(StatusCode::MethodNotAllowed)
    );
    assert_eq!(ParseError::ReadFailed.status_code(), Some(StatusCode::InternalServerError));
    assert_eq!(ParseError::Closed.message(), "stream closed");
    assert_eq!(ParseError::ReadFailed.message(), "read failed");
    assert_eq!(ParseError::BodyReadFailed.message(), "read failed");
    assert_eq!(ParseError::InvalidEncoding.message(), "invalid encoding");
    assert_eq!(ParseError::MalformedRequest.message(), "malformed request");
    assert_eq!(ParseError::MethodNotAllowed.message(), "method not allowed");
    assert_eq!(ParseError::InvalidResponse.message(), "invalid response");
    assert_eq!(ParseError::InvalidBodyEncoding.message(), "invalid body encoding");
    assert_eq!(ParseError::MalformedLength.message(), "malformed length");
}

#[test]
fn content_length_may_carry_a_plus_sign() {
    let raw = "POST /x HTTP/1.1\r\nContent-Length: +5\r\n\r\nHello";
    let (req, expected, body) = Request::parse_head(raw.as_bytes()).unwrap();
    assert_eq!(expected, Some(5));
    assert_eq!(req.resource, "/x");
    assert_eq!(req.body, "");
    assert_eq!(body, b"Hello".to_vec());
    assert_eq!(Request::parse(&mut cursor(raw)).unwrap().body, "Hello");
}

#[test]
fn words_of_the_request_line_may_be_split_by_any_whitespace() {
    let raw = "  GET \t /path\u{a0}HTTP/1.0 extra\r\nHost: a\r\n\r\n";
    let (req, expected) = Request::parse_text(raw).unwrap();
    assert_eq!(req.method, Method::GET);
    assert_eq!(req.resource, "/path");
    assert_eq!(req.version, "HTTP/1.0");
    assert_eq!(expected, None);
}

#[test]
fn cursor_is_left_where_the_reading_stopped() {
    let head = "GET / HTTP/1.1\r\nHost: a\r\n\r\n";
    let mut raw = head.as_bytes().to_vec();
    raw.extend(std::iter::repeat(b'x').take(2000));
    let mut input = Cursor::new(raw);
    let req = Request::parse(&mut input).unwrap();
    assert_eq!(req.body.len(), 1024 - head.len());
    assert_eq!(input.read(4096).len(), 2000 + head.len() - 1024);
}

#[test]
fn character_split_by_a_read_is_put_together() {
    let head = "POST /x HTTP/1.1\r\nContent-Length: 3000\r\n\r\n";
    for at in [1024, 2048] {
        let mut raw = head.as_bytes().to_vec();
        raw.extend(std::iter::repeat(b'x').take(at - head.len() - 1));
        raw.extend("\u{e9}".as_bytes());
        raw.extend(std::iter::repeat(b'y').take(head.len() + 3000 - at - 1));
        assert_eq!(raw.len(), head.len() + 3000);
        let request = Request::parse(&mut Cursor::new(raw.clone())).unwrap();
        assert_eq!(request.body.len(), 3000);
        let mut out = Vec::new();
        request.write(&mut out);
        assert_eq!(out, raw);
    }
}

#[test]
fn character_split_by_the_blank_line_read_is_put_together() {
    let head = "POST /x HTTP/1.1\r\nContent-Length: 3\r\n\r\n";
    let mut first = head.as_bytes().to_vec();
    first.extend(b"a\xc3");
    let parser = RequestParser::new().feed(&first);
    assert!(parser.is_reading());
    let parser = parser.feed(b"\xa9next");
    assert!(!parser.is_reading());
    assert_eq!(parser.leftover(), b"next".to_vec());
    assert_eq!(parser.finish().unwrap().unwrap().body, "a\u{e9}");
}

#[test]
fn whole_text_round_trips_whatever_its_letters() {
    let raw = "PUT /caf\u{e9} HTTP/1.1\r\n\
        X-Name: Z\u{fc}rich\r\n\
        Content-Length: 9\r\n\
        \r\n\
        na\u{ef}ve\u{2603}";
    let (bare, expected, body) = Request::parse_head(raw.as_bytes()).unwrap();
    assert_eq!(expected, Some(9));
    assert_eq!(bare.resource, "/caf\u{e9}");
    assert_eq!(body, "na\u{ef}ve\u{2603}".as_bytes().to_vec());
    let request = Request::parse(&mut cursor(raw)).unwrap();
    assert_eq!(request.to_string(), raw);
    let mut out = Vec::new();
    request.write(&mut out);
    assert_eq!(out, raw.as_bytes().to_vec());
    let again = Request::parse(&mut Cursor::new(out)).unwrap();
    assert_eq!(again.to_string(), raw);
}

#[test]
fn request_is_the_same_however_its_bytes_are_cut() {
    let body = "0123456\u{20ac}89".repeat(30);
    let raw = format!(
        "POST /cut HTTP/1.1\r\n\
            Host: example.com\r\n\
            Content-Length: {}\r\n\
            \r\n\
            {}",
        body.len(),
        body,
    );
    let bytes = raw.as_bytes();
    for size in [1usize, 2, 3, 5, 7, 64, 1000] {
        let mut parser = RequestParser::new();
        for chunk in bytes.chunks(size) {
            assert!(parser.is_reading());
            parser = parser.feed(chunk);
        }
        assert!(!parser.is_reading());
        let request = parser.finish().unwrap().unwrap();
        assert_eq!(request.body, body);
        assert_eq!(request.to_string(), raw);
    }
}

#[test]
fn body_is_never_longer_than_declared() {
    let mut input = cursor("POST / HTTP/1.1\r\nContent-Length: 5\r\n\r\nHelloEXTRA");
    let req = Request::parse(&mut input).unwrap();
    assert_eq!(req.body, "Hello");
    assert_eq!(input.read(1024), b"EXTRA".to_vec());
}

#[test]
fn what_follows_a_request_is_read_as_the_next_one() {
    let first = "POST /a HTTP/1.1\r\nContent-Length: 3\r\n\r\nabc";
    let second = "POST /b HTTP/1.1\r\nContent-Length: 2\r\n\r\nxy";
    let mut input = cursor(&format!("{}{}", first, second));
    let a = Request::parse(&mut input).unwrap();
    assert_eq!(a.to_string(), first);
    let b = Request::parse(&mut input).unwrap();
    assert_eq!(b.to_string(), second);
    assert_eq!(Request::parse(&mut input).unwrap_err(), ParseError::Closed);
}

#[test]
fn parser_hands_back_what_came_after_the_body() {
    let parser = RequestParser::new().feed(b"POST / HTTP/1.1\r\nContent-Length: 5\r\n\r\nHel");
    assert!(parser.is_reading());
    assert_eq!(parser.leftover(), Vec::<u8>::new());
    let parser = parser.feed(b"loEXTRA");
    assert!(!parser.is_reading());
    assert_eq!(parser.leftover(), b"EXTRA".to_vec());
    assert_eq!(parser.finish().unwrap().unwrap().body, "Hello");

    let parser = RequestParser::new().feed(b"GET / HTTP/1.1\r\nContent-Length: 0\r\n\r\nnext");
    assert!(!parser.is_reading());
    assert_eq!(parser.leftover(), b"next".to_vec());
    assert_eq!(parser.finish().unwrap().unwrap().body, "");
}

#[test]
fn declared_length_that_ends_inside_a_character_is_refused() {
    let raw = "POST / HTTP/1.1\r\nContent-Length: 3\r\n\r\nab\u{e9}";
    assert_eq!(error_of(raw.as_bytes()), ParseError::InvalidBodyEncoding);
    let raw = "POST / HTTP/1.1\r\nContent-Length: 4\r\n\r\nab\u{e9}c";
    let mut input = cursor(raw);
    assert_eq!(Request::parse(&mut input).unwrap().body, "ab\u{e9}");
    assert_eq!(input.read(8), b"c".to_vec());
}

#[test]
fn without_a_declared_length_the_body_is_what_came_with_the_head() {
    let parser = RequestParser::new().feed(b"GET / HTTP/1.1\r\nHost: a\r\n\r\ntrailing");
    assert!(!parser.is_reading());
    assert_eq!(parser.leftover(), Vec::<u8>::new());
    assert_eq!(parser.finish().unwrap().unwrap().body, "trailing");
}
