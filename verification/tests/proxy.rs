use rox::args::{Args, Protocol};
use rox::headers::Headers;
use rox::proxy::{admitted, authorized, credential_token, refuse, Action, Event, Proxy, Tunnel};
use rox::request::{Method, Request, RequestBuilder};
use rox::status::StatusCode;
use rox::wire::{Cursor, ParseError};

fn proxy(user: Option<&str>) -> Proxy {
    Proxy::new(Args {
        port: 8080,
        protocol: Protocol::HTTP,
        help: false,
        version: false,
        user: user.map(|u| u.to_string()),
    })
}

fn request(raw: &str) -> Request {
    Request::parse(&mut Cursor::new(raw.as_bytes().to_vec())).unwrap()
}

fn sent(action: Action) -> String {
    match action {
        Action::Send(response) => response.to_string(),
        other => panic!("no response: {:?}", other),
    }
}

#[test]
fn token_is_the_base64_of_the_credential() {
    assert_eq!(credential_token("alice:secret"), Some("YWxpY2U6c2VjcmV0".to_string()));
    assert_eq!(credential_token("a"), Some("YQ==".to_string()));
    assert_eq!(credential_token(""), Some("".to_string()));
    assert_eq!(credential_token("\u{fc}:\u{df}"), Some("w7w6w58=".to_string()));
}

#[test]
fn authorization_must_present_the_token_under_basic() {
    let ok = "Basic YWxpY2U6c2VjcmV0".to_string();
    assert!(authorized(Some(&ok), "YWxpY2U6c2VjcmV0"));
    let spaced = "Basic \t YWxpY2U6c2VjcmV0  trailing".to_string();
    assert!(authorized(Some(&spaced), "YWxpY2U6c2VjcmV0"));
    let glued = "BasicX YWxpY2U6c2VjcmV0".to_string();
    assert!(authorized(Some(&glued), "YWxpY2U6c2VjcmV0"));

    assert!(!authorized(None, "YWxpY2U6c2VjcmV0"));
    let wrong = "Basic Ym9iOnB3".to_string();
    assert!(!authorized(Some(&wrong), "YWxpY2U6c2VjcmV0"));
    let scheme = "Bearer YWxpY2U6c2VjcmV0".to_string();
    assert!(!authorized(Some(&scheme), "YWxpY2U6c2VjcmV0"));
    let lower = "basic YWxpY2U6c2VjcmV0".to_string();
    assert!(!authorized(Some(&lower), "YWxpY2U6c2VjcmV0"));
    let indented = " Basic YWxpY2U6c2VjcmV0".to_string();
    assert!(!authorized(Some(&indented), "YWxpY2U6c2VjcmV0"));
    let bare = "Basic".to_string();
    assert!(!authorized(Some(&bare), ""));
    assert!(!authorized(Some(&bare), "Basic"));
}

#[test]
fn credential_admits_by_header() {
    let mut headers = Headers::new();
    assert!(!admitted("alice:secret", &headers));
    headers.insert("proxy-authorization", "Basic YWxpY2U6c2VjcmV0");
    assert!(admitted("alice:secret", &headers));
    assert!(!admitted("alice:other", &headers));
}

#[test]
fn auth_loop() {
    let proxy = proxy(Some("alice:secret"));
    let (state, action) = proxy.open();
    assert_eq!(state, Tunnel::AwaitRequest);
    assert!(matches!(action, Action::ReadRequest));

    let first = request("CONNECT example.com:443 HTTP/1.1\r\nHost: example.com:443\r\n\r\n");
    let (state, action) = proxy.step(state, Event::Request(first));
    assert_eq!(state, Tunnel::AuthChallenge);
    assert_eq!(
        sent(action),
        "HTTP/1.1 407 Proxy Authentication Required\r\n\
            Proxy-Authenticate: Basic realm=\"rox\"\r\n\
            \r\n"
    );

    let (state, action) = proxy.step(state, Event::Sent(true));
    assert_eq!(state, Tunnel::AwaitRequest);
    assert!(matches!(action, Action::ReadRequest));

    let second = request(
        "CONNECT example.com:443 HTTP/1.1\r\n\
            Host: example.com:443\r\n\
            Proxy-Authorization: Basic YWxpY2U6c2VjcmV0\r\n\
            \r\n",
    );
    let (state, action) = proxy.step(state, Event::Request(second));
    assert_eq!(state, Tunnel::DialUpstream);
    assert!(matches!(action, Action::Dial(target) if target == "example.com:443"));
}

#[test]
fn challenge_is_repeated_for_a_wrong_credential() {
    let proxy = proxy(Some("alice:secret"));
    let wrong = request(
        "CONNECT example.com:443 HTTP/1.1\r\nProxy-Authorization: Basic Ym9iOnB3\r\n\r\n",
    );
    let (state, _) = proxy.step(Tunnel::AwaitRequest, Event::Request(wrong));
    assert_eq!(state, Tunnel::AuthChallenge);
    let (state, action) = proxy.step(state, Event::Sent(false));
    assert_eq!(state, Tunnel::AwaitRequest);
    assert!(matches!(action, Action::ReadRequest));
}

#[test]
fn challenge_comes_before_the_method_is_looked_at() {
    let proxy = proxy(Some("alice:secret"));
    let get = request("GET / HTTP/1.1\r\nHost: a\r\n\r\n");
    let (state, _) = proxy.step(Tunnel::AwaitRequest, Event::Request(get));
    assert_eq!(state, Tunnel::AuthChallenge);
}

#[test]
fn method_rejection() {
    let proxy = proxy(None);
    let get = request("GET / HTTP/1.1\r\nHost: example.com\r\n\r\n");
    let (state, action) = proxy.step(Tunnel::AwaitRequest, Event::Request(get));
    assert_eq!(state, Tunnel::Rejecting);
    assert_eq!(sent(action), "HTTP/1.1 405 Method Not Allowed\r\nConnection: close\r\n\r\n");
    let (state, action) = proxy.step(state, Event::Sent(true));
    assert_eq!(state, Tunnel::Closed);
    assert!(matches!(action, Action::Close));
}

#[test]
fn tunnel_is_established_and_relayed() {
    let proxy = proxy(None);
    let connect = RequestBuilder::new()
        .add_method(Method::CONNECT)
        .add_resource("example.com:443")
        .build()
        .unwrap();
    let (state, action) = proxy.step(Tunnel::AwaitRequest, Event::Request(connect));
    assert_eq!(state, Tunnel::DialUpstream);
    assert!(matches!(action, Action::Dial(target) if target == "example.com:443"));

    let (state, action) = proxy.step(state, Event::Connected);
    assert_eq!(state, Tunnel::Established);
    assert_eq!(sent(action), "HTTP/1.1 200 Connection Established\r\n\r\n");

    let (state, action) = proxy.step(state, Event::Sent(true));
    assert_eq!(state, Tunnel::Relaying);
    assert!(matches!(action, Action::Relay));

    let (state, action) = proxy.step(state, Event::RelayEnded);
    assert_eq!(state, Tunnel::Closed);
    assert!(matches!(action, Action::Close));
}

#[test]
fn failed_write_of_the_handshake_closes() {
    let proxy = proxy(None);
    let (state, action) = proxy.step(Tunnel::Established, Event::Sent(false));
    assert_eq!(state, Tunnel::Closed);
    assert!(matches!(action, Action::Close));
}

#[test]
fn failed_dial_is_answered_with_500() {
    let proxy = proxy(None);
    let (state, action) = proxy.step(
        Tunnel::DialUpstream,
        Event::ConnectFailed("connection refused".to_string()),
    );
    assert_eq!(state, Tunnel::Rejecting);
    assert_eq!(
        sent(action),
        "HTTP/1.1 500 Internal Server Error\r\n\
            Connection: close\r\n\
            Content-Length: 18\r\n\
            \r\n\
            connection refused"
    );
    let (state, _) = proxy.step(state, Event::Sent(false));
    assert_eq!(state, Tunnel::Closed);
}

#[test]
fn parse_failure_is_answered_with_its_status() {
    let proxy = proxy(None);
    let (state, action) =
        proxy.step(Tunnel::AwaitRequest, Event::ParseFailed(ParseError::MalformedRequest));
    assert_eq!(state, Tunnel::Rejecting);
    assert_eq!(sent(action), "HTTP/1.1 400 Bad Request\r\nConnection: close\r\n\r\n");

    let (state, action) = proxy.step(
        Tunnel::AwaitRequest,
        Event::ParseFailed(ParseError::MethodNotAllowed),
    );
    assert_eq!(state, Tunnel::Rejecting);
    assert_eq!(sent(action), "HTTP/1.1 405 Method Not Allowed\r\nConnection: close\r\n\r\n");

    let (_, action) = proxy.step(Tunnel::AwaitRequest, Event::ParseFailed(ParseError::ReadFailed));
    assert_eq!(
        sent(action),
        "HTTP/1.1 500 Internal Server Error\r\nConnection: close\r\n\r\n"
    );
}

#[test]
fn client_that_left_early_is_dropped_in_silence() {
    let proxy = proxy(Some("alice:secret"));
    let (state, action) = proxy.step(Tunnel::AwaitRequest, Event::ParseFailed(ParseError::Closed));
    assert_eq!(state, Tunnel::Closed);
    assert!(matches!(action, Action::Close));
}

#[test]
fn what_cannot_happen_closes_the_connection() {
    let proxy = proxy(None);
    let (state, action) = proxy.step(Tunnel::Closed, Event::Connected);
    assert_eq!(state, Tunnel::Closed);
    assert!(matches!(action, Action::Close));
    let (state, _) = proxy.step(Tunnel::AwaitRequest, Event::RelayEnded);
    assert_eq!(state, Tunnel::Closed);
    let (state, _) = proxy.step(Tunnel::Relaying, Event::Sent(true));
    assert_eq!(state, Tunnel::Closed);
}

#[test]
fn shared_handle_has_the_same_configuration() {
    let proxy = proxy(Some("alice:secret"));
    let other = proxy.share();
    assert_eq!(other.port(), 8080);
    let get = request("CONNECT a:1 HTTP/1.1\r\nHost: a\r\n\r\n");
    let (state, _) = other.step(Tunnel::AwaitRequest, Event::Request(get));
    assert_eq!(state, Tunnel::AuthChallenge);
}

#[test]
fn refusal_announces_the_close() {
    let response = refuse(StatusCode::BadRequest, "");
    assert_eq!(response.status_code, StatusCode::BadRequest);
    assert_eq!(response.headers.get("connection").map(String::as_str), Some("close"));
    assert_eq!(response.body, "");
}
