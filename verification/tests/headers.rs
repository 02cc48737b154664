use rox::headers::{HeaderKey, Headers};
use rox::status::StatusCode;

#[test]
fn it_can_parse_headers() {
    let raw = "Host: google.com:80\r\nUser-Agent: curl/8.7.1\r\nProxy-Connection: Keep-Alive";

    let headers = Headers::parse(raw).unwrap();

    assert!(matches!(headers.get("Host"), Some(host) if host == "google.com:80"));
    assert!(matches!(headers.get("USER-AGENT"), Some(host) if host == "curl/8.7.1"));
    assert!(matches!(headers.get("proxy-connection"), Some(host) if host == "Keep-Alive"));
    assert_eq!(headers.to_string(), raw.to_string() + "\r\n");
}

#[test]
fn lookup_ignores_letter_case() {
    let mut headers = Headers::new();
    assert_eq!(headers.insert("Content-Type", "text/plain"), None);

    assert_eq!(headers.get("Content-Type").map(String::as_str), Some("text/plain"));
    assert_eq!(headers.get("CONTENT-TYPE").map(String::as_str), Some("text/plain"));
    assert_eq!(headers.get("content-type").map(String::as_str), Some("text/plain"));
    assert_eq!(headers.get("Content_Type"), None);
}

#[test]
fn overwriting_keeps_order_and_first_casing() {
    let mut headers = Headers::new();
    headers.insert("A", "1");
    headers.insert("B", "2");
    headers.insert("C", "3");
    let previous = headers.insert("b", "4");

    assert_eq!(previous, Some("2".to_string()));
    assert_eq!(headers.len(), 3);
    assert_eq!(headers.to_string(), "A: 1\r\nB: 4\r\nC: 3\r\n");
}

#[test]
fn empty_collection_serializes_to_nothing() {
    let headers = Headers::new();
    assert_eq!(headers.len(), 0);
    assert_eq!(headers.to_string(), "");
}

#[test]
fn line_without_colon_is_refused() {
    assert!(matches!(Headers::parse("Host google.com"), Err(StatusCode::BadRequest)));
    assert!(matches!(Headers::parse("Host: a\r\nbroken"), Err(StatusCode::BadRequest)));
    assert!(matches!(Headers::parse(""), Err(StatusCode::BadRequest)));
    assert!(matches!(Headers::parse("Host: a\r\n"), Err(StatusCode::BadRequest)));
}

#[test]
fn value_is_trimmed_and_name_is_not() {
    let headers = Headers::parse("Host:   example.com \t\r\n Odd : x:y").unwrap();

    assert_eq!(headers.get("host").map(String::as_str), Some("example.com"));
    assert_eq!(headers.get(" odd ").map(String::as_str), Some("x:y"));
    assert_eq!(headers.get("odd"), None);
    assert_eq!(headers.to_string(), "Host: example.com\r\n Odd : x:y\r\n");
}

#[test]
fn repeated_name_keeps_first_place_and_last_value() {
    let headers = Headers::parse("X-A: 1\r\nX-B: 2\r\nx-a: 3").unwrap();

    assert_eq!(headers.len(), 2);
    assert_eq!(headers.to_string(), "X-A: 3\r\nX-B: 2\r\n");
}

#[test]
fn only_ascii_letters_are_folded() {
    let mut headers = Headers::new();
    headers.insert("Stra\u{df}e", "1");
    headers.insert("\u{c4}", "2");

    assert_eq!(headers.get("STRA\u{df}E").map(String::as_str), Some("1"));
    assert_eq!(headers.get("\u{e4}"), None);
    assert_eq!(headers.get("\u{c4}").map(String::as_str), Some("2"));
}

#[test]
fn keys_are_equal_but_for_letter_case() {
    let written = HeaderKey::new("Content-Type".to_string());
    let shouted = HeaderKey::new("CONTENT-TYPE".to_string());
    let other = HeaderKey::new("Content-Length".to_string());

    assert!(written == shouted);
    assert!(written.same(&shouted));
    assert!(written != other);
    assert!(!written.same(&other));
    assert_eq!(written.as_str(), "Content-Type");
    assert_eq!(shouted.as_str(), "CONTENT-TYPE");
}
