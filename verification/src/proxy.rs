//! The tunnel engine: what the proxy does with one accepted connection. The
//! engine never touches a socket: it is told what happened and answers with
//! the next state and with what is to be done next.

use crate::args::{Args, ArgsView};
use crate::headers::{lookup, Headers};
use crate::request::{default_version, Method, Request, RequestView};
use crate::response::{built_headers, Response, ResponseBuilder, ResponseView};
use crate::status::StatusCode;
use crate::text::{
    chars_eq, chars_of, is_word, lemma_tokens_of_word, lemma_tokens_of_word_and_rest, matches_at,
    occurs_at, token_bounds, tokens,
};
use crate::wire::{utf8_len, ParseError};
use base64::prelude::{Engine, BASE64_STANDARD};
use std::sync::Arc;
use vstd::prelude::*;

verus! {

/// The standard Base64 encoding, with padding, of the UTF-8 bytes of
/// `text`.
pub uninterp spec fn base64_standard(text: Seq<char>) -> Seq<char>;

/// The Base64 encoder can take `text`: the length of the encoding, four
/// characters for every three bytes begun, is one that a buffer can have.
pub open spec fn encodable(text: Seq<char>) -> bool {
    utf8_len(text) / 3 * 4 + 4 <= usize::MAX / 2
}

/// A character that a standard Base64 encoding is made of: a letter, a
/// digit, `+`, `/`, or the padding `=`.
pub open spec fn is_base64_char(c: char) -> bool {
    ||| 'A' <= c <= 'Z'
    ||| 'a' <= c <= 'z'
    ||| '0' <= c <= '9'
    ||| c == '+'
    ||| c == '/'
    ||| c == '='
}

/// The length of the padded Base64 encoding of `n` bytes: four characters
/// for every three bytes begun.
pub open spec fn base64_len(n: nat) -> nat {
    n / 3 * 4 + if n % 3 > 0 {
        4nat
    } else {
        0nat
    }
}

/// `base64::Engine::encode` of `base64::prelude::BASE64_STANDARD`: the
/// standard Base64 encoding, with padding, of the bytes of `text`. It has
/// four characters for every three bytes begun, each a symbol of the
/// standard alphabet or the padding `=`. The encoder panics where the
/// length of the encoding overflows or is more than a buffer can have;
/// these inputs are left out.
#[verifier::external_body]
fn base64_encode(text: &str) -> (encoded: String)
    requires
        encodable(text@),
    ensures
        encoded@ == base64_standard(text@),
        encoded@.len() == base64_len(utf8_len(text@)),
        forall|i: int| 0 <= i < encoded@.len() ==> is_base64_char(#[trigger] encoded@[i]),
{
    BASE64_STANDARD.encode(text)
}

/// The token that a client must present for the credential `user`: its
/// Base64 encoding, which is one word unless `user` is empty. `None` where
/// `user` is too long to be encoded.
pub fn credential_token(user: &str) -> (token: Option<String>)
    ensures
        match token {
            Some(t) => {
                &&& encodable(user@)
                &&& t@ == base64_standard(user@)
                &&& t@.len() == base64_len(utf8_len(user@))
                &&& utf8_len(user@) > 0 ==> is_word(t@)
            },
            None => !encodable(user@),
        },
{
    let length: usize = user.as_bytes().len();
    if length / 3 <= (usize::MAX / 2 - 4) / 4 {
        let token = base64_encode(user);
        proof {
            assert forall|i: int| 0 <= i < token@.len() implies !crate::text::is_whitespace(
                #[trigger] token@[i],
            ) by {
                assert(is_base64_char(token@[i]));
            }
        }
        Some(token)
    } else {
        None
    }
}

/// The name of the header that carries a client's credential.
pub open spec fn authorization_name() -> Seq<char> {
    "Proxy-Authorization"@
}

/// The value of `Proxy-Authorization` presents `token` under the `Basic`
/// scheme: it starts with `Basic`, and its second whitespace-separated word
/// is `token`.
pub open spec fn presents(authorization: Option<Seq<char>>, token: Seq<char>) -> bool {
    match authorization {
        None => false,
        Some(value) => {
            &&& matches_at(value, "Basic"@, 0)
            &&& tokens(value).len() >= 2
            &&& tokens(value)[1] == token
        },
    }
}

/// Whether the value of `Proxy-Authorization`, if there is one, presents
/// `token` under the `Basic` scheme.
pub fn authorized(authorization: Option<&String>, token: &str) -> (accepted: bool)
    ensures
        accepted == presents(
            match authorization {
                Some(value) => Some(value@),
                None => None,
            },
            token@,
        ),
{
    let value = match authorization {
        Some(value) => value,
        None => {
            return false;
        },
    };
    let chars = chars_of(value.as_str());
    let scheme = chars_of("Basic");
    if !occurs_at(chars.as_slice(), scheme.as_slice(), 0) {
        return false;
    }
    let words = token_bounds(chars.as_slice());
    if words.len() < 2 {
        return false;
    }
    let second = words[1];
    let presented = vstd::slice::slice_subrange(chars.as_slice(), second.0, second.1);
    let expected = chars_of(token);
    chars_eq(presented, expected.as_slice())
}

/// The credential `user` admits a request with this `Proxy-Authorization`:
/// the value presents the Base64 encoding of `user`. A credential too long
/// to be encoded admits nothing.
pub open spec fn admits(user: Seq<char>, authorization: Option<Seq<char>>) -> bool {
    encodable(user) && presents(authorization, base64_standard(user))
}

/// The headers carry the credential `user`: `Proxy-Authorization` is
/// `Basic`, a space, and the Base64 encoding of `user`.
pub open spec fn carries(headers: crate::headers::HeaderList, user: Seq<char>) -> bool {
    lookup(headers, authorization_name()) == Some("Basic "@ + base64_standard(user))
}

/// Whether the credential `user` admits a request with the headers
/// `headers`. Headers that carry the credential are admitted, unless the
/// credential is empty or too long to be encoded.
pub fn admitted(user: &str, headers: &Headers) -> (accepted: bool)
    ensures
        accepted == admits(user@, lookup(headers@, authorization_name())),
        carries(headers@, user@) && utf8_len(user@) > 0 && encodable(user@) ==> accepted,
{
    match credential_token(user) {
        Some(token) => {
            proof {
                if utf8_len(user@) > 0 {
                    law_basic_presents_its_token(token@, token@);
                }
            }
            authorized(headers.get("Proxy-Authorization"), token.as_str())
        },
        None => false,
    }
}

/// Where a connection stands.
#[derive(Debug, Clone, Copy, PartialEq, Eq, Structural)]
pub enum Tunnel {
    /// A request is being read from the client.
    AwaitRequest,
    /// The challenge `407` is being written; the connection stays open for
    /// the client's next request.
    AuthChallenge,
    /// An error response is being written; the connection closes after it.
    Rejecting,
    /// The upstream host is being dialed.
    DialUpstream,
    /// The upstream connection stands and `200` is being written.
    Established,
    /// Bytes are relayed in both directions.
    Relaying,
    /// The connection is over.
    Closed,
}

/// What happened on a connection.
#[derive(Debug)]
pub enum Event {
    /// A request was read.
    Request(Request),
    /// No request could be read.
    ParseFailed(ParseError),
    /// The response was written (`true`), or writing it failed (`false`).
    Sent(bool),
    /// The upstream host answered the dial.
    Connected,
    /// The upstream host could not be reached; the text says why.
    ConnectFailed(String),
    /// The relay has ended, by the end of either stream or by a failure.
    RelayEnded,
}

/// The model of an event.
pub enum EventView {
    Request(RequestView),
    ParseFailed(ParseError),
    Sent(bool),
    Connected,
    ConnectFailed(Seq<char>),
    RelayEnded,
}

impl View for Event {
    type V = EventView;

    open spec fn view(&self) -> EventView {
        match self {
            Event::Request(request) => EventView::Request(request@),
            Event::ParseFailed(error) => EventView::ParseFailed(*error),
            Event::Sent(written) => EventView::Sent(*written),
            Event::Connected => EventView::Connected,
            Event::ConnectFailed(reason) => EventView::ConnectFailed(reason@),
            Event::RelayEnded => EventView::RelayEnded,
        }
    }
}

/// What is to be done next on a connection.
#[derive(Debug)]
pub enum Action {
    /// Read one request from the client.
    ReadRequest,
    /// Write this response to the client.
    Send(Response),
    /// Open a connection to this `host:port`.
    Dial(String),
    /// Copy bytes between the client and the upstream host, both ways,
    /// until either stream ends.
    Relay,
    /// Drop the connection, and the upstream connection if there is one.
    Close,
}

/// The model of an action.
pub enum ActionView {
    ReadRequest,
    Send(ResponseView),
    Dial(Seq<char>),
    Relay,
    Close,
}

impl View for Action {
    type V = ActionView;

    open spec fn view(&self) -> ActionView {
        match self {
            Action::ReadRequest => ActionView::ReadRequest,
            Action::Send(response) => ActionView::Send(response@),
            Action::Dial(target) => ActionView::Dial(target@),
            Action::Relay => ActionView::Relay,
            Action::Close => ActionView::Close,
        }
    }
}

/// The response that refuses with `status_code` and announces that the
/// connection closes; `reason` is its body, with its length declared where
/// it is not empty.
pub open spec fn refusal(status_code: StatusCode, reason: Seq<char>) -> ResponseView {
    ResponseView {
        version: default_version(),
        status_code,
        status_message: status_code.reason(),
        headers: built_headers(seq![("Connection"@, "close"@)], reason),
        body: reason,
    }
}

/// The response that asks the client for a credential.
pub open spec fn challenge() -> ResponseView {
    ResponseView {
        version: default_version(),
        status_code: StatusCode::ProxyAuthenticationRequired,
        status_message: StatusCode::ProxyAuthenticationRequired.reason(),
        headers: seq![("Proxy-Authenticate"@, "Basic realm=\"rox\""@)],
        body: Seq::empty(),
    }
}

/// The response that tells the client that the tunnel stands.
pub open spec fn established() -> ResponseView {
    ResponseView {
        version: default_version(),
        status_code: StatusCode::OK,
        status_message: "Connection Established"@,
        headers: Seq::empty(),
        body: Seq::empty(),
    }
}

/// The request is a `CONNECT` that carries the credential `user`, which is
/// neither empty nor too long to be encoded.
pub open spec fn presents_credential(user: Option<Seq<char>>, request: RequestView) -> bool {
    &&& user matches Some(credential)
    &&& utf8_len(credential) > 0
    &&& encodable(credential)
    &&& request.method == Method::CONNECT
    &&& carries(request.headers, credential)
}

/// What a request that was read leads to: the challenge, where a
/// credential is asked for and the request does not present it; a refusal
/// with `405`, where the method is not `CONNECT`; else the dialing of the
/// request's target.
pub open spec fn on_request(user: Option<Seq<char>>, request: RequestView) -> (Tunnel, ActionView) {
    if user.is_some() && !admits(user.unwrap(), lookup(request.headers, authorization_name())) {
        (Tunnel::AuthChallenge, ActionView::Send(challenge()))
    } else if request.method != Method::CONNECT {
        (
            Tunnel::Rejecting,
            ActionView::Send(refusal(StatusCode::MethodNotAllowed, Seq::empty())),
        )
    } else {
        (Tunnel::DialUpstream, ActionView::Dial(request.resource))
    }
}

/// The next state of a connection, and what is to be done next, after
/// `event` has happened in `state`; `user` is the credential that clients
/// must present, if any.
///
/// A request that could not be read is answered with the status of the
/// failure and the connection closes; where the client left before it sent
/// anything, the connection closes in silence. After a challenge the next
/// request is read on the same connection, whether or not the challenge
/// could be written. A failed dial is answered with `500` and the reason as
/// the body. Only once `200` is written does the relay begin; if it cannot
/// be written the connection closes. What cannot happen in a state closes
/// the connection.
pub open spec fn step(user: Option<Seq<char>>, state: Tunnel, event: EventView) -> (
    Tunnel,
    ActionView,
) {
    match (state, event) {
        (Tunnel::AwaitRequest, EventView::Request(request)) => on_request(user, request),
        (Tunnel::AwaitRequest, EventView::ParseFailed(error)) => match error.status() {
            Some(status_code) => (
                Tunnel::Rejecting,
                ActionView::Send(refusal(status_code, Seq::empty())),
            ),
            None => (Tunnel::Closed, ActionView::Close),
        },
        (Tunnel::AuthChallenge, EventView::Sent(_)) => (
            Tunnel::AwaitRequest,
            ActionView::ReadRequest,
        ),
        (Tunnel::Rejecting, EventView::Sent(_)) => (Tunnel::Closed, ActionView::Close),
        (Tunnel::DialUpstream, EventView::Connected) => (
            Tunnel::Established,
            ActionView::Send(established()),
        ),
        (Tunnel::DialUpstream, EventView::ConnectFailed(reason)) => (
            Tunnel::Rejecting,
            ActionView::Send(refusal(StatusCode::InternalServerError, reason)),
        ),
        (Tunnel::Established, EventView::Sent(true)) => (Tunnel::Relaying, ActionView::Relay),
        _ => (Tunnel::Closed, ActionView::Close),
    }
}

/// The response that refuses with `status_code` and announces that the
/// connection closes; `reason` is its body.
pub fn refuse(status_code: StatusCode, reason: &str) -> (response: Response)
    ensures
        response@ == refusal(status_code, reason@),
{
    let built = ResponseBuilder::new().add_status_code(status_code).add_header(
        "Connection",
        "close",
    ).add_body(reason).build();
    match built {
        Ok(response) => response,
        Err(_) => Response::from(status_code),
    }
}

/// The proxy: its configuration, shared by all its connections and never
/// changed.
pub struct Proxy {
    args: Arc<Args>,
}

impl Proxy {
    /// The configuration.
    pub closed spec fn config(self) -> ArgsView {
        (*self.args)@
    }

    /// The proxy with the configuration `args`.
    pub fn new(args: Args) -> (proxy: Proxy)
        ensures
            proxy.config() == args@,
    {
        Proxy { args: Arc::new(args) }
    }

    /// The port that the proxy listens on.
    pub fn port(&self) -> (port: u16)
        ensures
            port == self.config().port,
    {
        self.args.port
    }

    /// A handle to the same proxy, for one more connection.
    pub fn share(&self) -> (proxy: Proxy)
        ensures
            proxy.config() == self.config(),
    {
        Proxy { args: self.args.clone() }
    }

    /// The state in which every connection starts, and what is to be done
    /// first.
    pub fn open(&self) -> (start: (Tunnel, Action))
        ensures
            start.0 == Tunnel::AwaitRequest,
            start.1@ == ActionView::ReadRequest,
    {
        (Tunnel::AwaitRequest, Action::ReadRequest)
    }

    /// What a request that was read leads to.
    fn decide(&self, request: Request) -> (next: (Tunnel, Action))
        ensures
            (next.0, next.1@) == on_request(self.config().user, request@),
            presents_credential(self.config().user, request@) ==> (next.0, next.1@) == (
                Tunnel::DialUpstream,
                ActionView::Dial(request@.resource),
            ),
    {
        proof {
            reveal_strlit("");
            assert(""@ =~= Seq::<char>::empty());
        }
        let admitted = match &self.args.user {
            Some(user) => admitted(user.as_str(), &request.headers),
            None => true,
        };
        if !admitted {
            let built = ResponseBuilder::new().add_status_code(
                StatusCode::ProxyAuthenticationRequired,
            ).add_header("Proxy-Authenticate", "Basic realm=\"rox\"").build();
            let response = match built {
                Ok(response) => response,
                Err(_) => Response::from(StatusCode::ProxyAuthenticationRequired),
            };
            (Tunnel::AuthChallenge, Action::Send(response))
        } else if request.method != Method::CONNECT {
            (Tunnel::Rejecting, Action::Send(refuse(StatusCode::MethodNotAllowed, "")))
        } else {
            (Tunnel::DialUpstream, Action::Dial(request.resource))
        }
    }

    /// The next state of a connection, and what is to be done next, after
    /// `event` has happened in `state`. A `CONNECT` request that carries
    /// the credential leaves the authentication loop: its target is dialed
    /// and no challenge is written.
    pub fn step(&self, state: Tunnel, event: Event) -> (next: (Tunnel, Action))
        ensures
            (next.0, next.1@) == step(self.config().user, state, event@),
            event@ matches EventView::Request(request) ==> (state == Tunnel::AwaitRequest
                && presents_credential(self.config().user, request) ==> (next.0, next.1@) == (
                Tunnel::DialUpstream,
                ActionView::Dial(request.resource),
            )),
    {
        proof {
            reveal_strlit("");
            assert(""@ =~= Seq::<char>::empty());
        }
        match (state, event) {
            (Tunnel::AwaitRequest, Event::Request(request)) => self.decide(request),
            (Tunnel::AwaitRequest, Event::ParseFailed(error)) => match error.status_code() {
                Some(status_code) => (Tunnel::Rejecting, Action::Send(refuse(status_code, ""))),
                None => (Tunnel::Closed, Action::Close),
            },
            (Tunnel::AuthChallenge, Event::Sent(_)) => (Tunnel::AwaitRequest, Action::ReadRequest),
            (Tunnel::Rejecting, Event::Sent(_)) => (Tunnel::Closed, Action::Close),
            (Tunnel::DialUpstream, Event::Connected) => {
                let built = ResponseBuilder::new().add_status_code(
                    StatusCode::OK,
                ).add_status_message("Connection Established").build();
                let response = match built {
                    Ok(response) => response,
                    Err(_) => Response::from(StatusCode::OK),
                };
                (Tunnel::Established, Action::Send(response))
            },
            (Tunnel::DialUpstream, Event::ConnectFailed(reason)) => (
                Tunnel::Rejecting,
                Action::Send(refuse(StatusCode::InternalServerError, reason.as_str())),
            ),
            (Tunnel::Established, Event::Sent(true)) => (Tunnel::Relaying, Action::Relay),
            _ => (Tunnel::Closed, Action::Close),
        }
    }
}

/// The authentication loop, first half: where a credential is asked for, a
/// request without `Proxy-Authorization` is answered with the challenge
/// `407`, whatever else it holds, and once the challenge is written, or
/// could not be written, the next request is read on the same connection.
pub proof fn law_missing_credential_is_challenged(
    user: Seq<char>,
    request: RequestView,
    written: bool,
)
    requires
        lookup(request.headers, authorization_name()).is_none(),
    ensures
        step(Some(user), Tunnel::AwaitRequest, EventView::Request(request)) == (
            Tunnel::AuthChallenge,
            ActionView::Send(challenge()),
        ),
        challenge().status_code.number() == 407,
        step(Some(user), Tunnel::AuthChallenge, EventView::Sent(written)) == (
            Tunnel::AwaitRequest,
            ActionView::ReadRequest,
        ),
{
}

/// `Basic`, a space and a token present that token and no other.
pub proof fn law_basic_presents_its_token(token: Seq<char>, expected: Seq<char>)
    requires
        is_word(token),
    ensures
        presents(Some("Basic "@ + token), expected) == (token == expected),
{
    reveal_strlit("Basic ");
    reveal_strlit("Basic");
    let scheme = "Basic"@;
    let value = "Basic "@ + token;
    assert(scheme =~= seq!['B', 'a', 's', 'i', 'c']);
    assert(is_word(scheme));
    assert(value =~= scheme + seq![' '] + token);
    assert(value.subrange(0, 5) =~= scheme);
    lemma_tokens_of_word_and_rest(scheme, token);
    lemma_tokens_of_word(token);
    assert(tokens(value) =~= seq![scheme, token]);
}

/// The authentication loop, second half: a `CONNECT` request that presents
/// a token under `Basic` goes on to the dialing of its target where the
/// token is the Base64 encoding of the credential, and is challenged where
/// it is not.
pub proof fn law_presented_credential_decides(
    user: Seq<char>,
    request: RequestView,
    token: Seq<char>,
)
    requires
        is_word(token),
        lookup(request.headers, authorization_name()) == Some("Basic "@ + token),
        request.method == Method::CONNECT,
    ensures
        step(Some(user), Tunnel::AwaitRequest, EventView::Request(request)) == if encodable(user)
            && base64_standard(user) == token {
            (Tunnel::DialUpstream, ActionView::Dial(request.resource))
        } else {
            (Tunnel::AuthChallenge, ActionView::Send(challenge()))
        },
{
    law_basic_presents_its_token(token, base64_standard(user));
}

/// Only `CONNECT` is tunnelled: a request with another method never leads
/// to a dial; where it is not challenged it is refused with `405` and
/// `Connection: close`, and after the refusal the connection is closed.
pub proof fn law_only_connect_is_tunnelled(
    user: Option<Seq<char>>,
    request: RequestView,
    written: bool,
)
    requires
        request.method != Method::CONNECT,
    ensures
        step(user, Tunnel::AwaitRequest, EventView::Request(request)).0 != Tunnel::DialUpstream,
        step(None, Tunnel::AwaitRequest, EventView::Request(request)) == (
            Tunnel::Rejecting,
            ActionView::Send(refusal(StatusCode::MethodNotAllowed, Seq::empty())),
        ),
        refusal(StatusCode::MethodNotAllowed, Seq::empty()).status_code.number() == 405,
        lookup(refusal(StatusCode::MethodNotAllowed, Seq::empty()).headers, "Connection"@) == Some(
            "close"@,
        ),
        step(user, Tunnel::Rejecting, EventView::Sent(written)) == (
            Tunnel::Closed,
            ActionView::Close,
        ),
{
    let headers = seq![("Connection"@, "close"@)];
    assert(utf8_len(Seq::<char>::empty()) == 0);
    assert(built_headers(headers, Seq::empty()) == headers);
    assert(headers[0].0 == "Connection"@);
    assert(crate::headers::position(headers, "Connection"@) == Some(0int));
}

/// A closed connection stays closed.
pub proof fn law_closed_is_final(user: Option<Seq<char>>, event: EventView)
    ensures
        step(user, Tunnel::Closed, event) == (Tunnel::Closed, ActionView::Close),
{
}

} // verus!
