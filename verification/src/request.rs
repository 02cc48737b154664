//! Requests: the methods, the request value with its wire form, the reading
//! of a request from bytes as they arrive, and the builder.

use crate::headers::{parse_block, serialize, HeaderList, Headers};
use crate::text::{
    chars_of, crlf, delimiter, find, find_in, lemma_find_from, piece, str_eq, token_bounds,
    tokens,
};
use crate::wire::{
    content_length, declared_length, decode, decoded, ends_with, find_blank_line,
    first_blank_line, has_blank_line, holds_blank_line, utf8_len, Cursor, Declared, ParseError,
};
use vstd::utf8::valid_utf8;
use vstd::prelude::*;

verus! {

/// The request methods that the message model knows.
#[derive(Debug, PartialEq, Eq, Copy, Clone, Structural)]
pub enum Method {
    CONNECT,
    GET,
    POST,
    PUT,
    PATCH,
    DELETE,
    HEAD,
    OPTIONS,
    TRACE,
}

impl Method {
    /// The method's token on the wire.
    pub open spec fn text(self) -> Seq<char> {
        match self {
            Method::CONNECT => "CONNECT"@,
            Method::GET => "GET"@,
            Method::POST => "POST"@,
            Method::PUT => "PUT"@,
            Method::PATCH => "PATCH"@,
            Method::DELETE => "DELETE"@,
            Method::HEAD => "HEAD"@,
            Method::OPTIONS => "OPTIONS"@,
            Method::TRACE => "TRACE"@,
        }
    }

    /// The method whose token is `s`, letter for letter.
    pub open spec fn of_text(s: Seq<char>) -> Option<Method> {
        if s == "GET"@ {
            Some(Method::GET)
        } else if s == "PUT"@ {
            Some(Method::PUT)
        } else if s == "HEAD"@ {
            Some(Method::HEAD)
        } else if s == "POST"@ {
            Some(Method::POST)
        } else if s == "PATCH"@ {
            Some(Method::PATCH)
        } else if s == "DELETE"@ {
            Some(Method::DELETE)
        } else if s == "OPTIONS"@ {
            Some(Method::OPTIONS)
        } else if s == "CONNECT"@ {
            Some(Method::CONNECT)
        } else if s == "TRACE"@ {
            Some(Method::TRACE)
        } else {
            None
        }
    }

    /// The method whose token is `method`, letter for letter; `None` for
    /// any other text.
    pub fn parse(method: &str) -> (parsed: Option<Method>)
        ensures
            parsed == Method::of_text(method@),
    {
        if str_eq(method, "GET") {
            Some(Method::GET)
        } else if str_eq(method, "PUT") {
            Some(Method::PUT)
        } else if str_eq(method, "HEAD") {
            Some(Method::HEAD)
        } else if str_eq(method, "POST") {
            Some(Method::POST)
        } else if str_eq(method, "PATCH") {
            Some(Method::PATCH)
        } else if str_eq(method, "DELETE") {
            Some(Method::DELETE)
        } else if str_eq(method, "OPTIONS") {
            Some(Method::OPTIONS)
        } else if str_eq(method, "CONNECT") {
            Some(Method::CONNECT)
        } else if str_eq(method, "TRACE") {
            Some(Method::TRACE)
        } else {
            None
        }
    }

    /// The method's token on the wire.
    pub fn as_str(&self) -> (token: &'static str)
        ensures
            token@ == self.text(),
    {
        match self {
            Method::CONNECT => "CONNECT",
            Method::GET => "GET",
            Method::POST => "POST",
            Method::PUT => "PUT",
            Method::PATCH => "PATCH",
            Method::DELETE => "DELETE",
            Method::HEAD => "HEAD",
            Method::OPTIONS => "OPTIONS",
            Method::TRACE => "TRACE",
        }
    }

    /// The method's token on the wire, as an owned string.
    pub fn to_string(&self) -> (token: String)
        ensures
            token@ == self.text(),
    {
        String::from_str(self.as_str())
    }
}

/// The tokens of the methods, spelled out.
pub proof fn lemma_method_tokens()
    ensures
        "CONNECT"@ == seq!['C', 'O', 'N', 'N', 'E', 'C', 'T'],
        "GET"@ == seq!['G', 'E', 'T'],
        "POST"@ == seq!['P', 'O', 'S', 'T'],
        "PUT"@ == seq!['P', 'U', 'T'],
        "PATCH"@ == seq!['P', 'A', 'T', 'C', 'H'],
        "DELETE"@ == seq!['D', 'E', 'L', 'E', 'T', 'E'],
        "HEAD"@ == seq!['H', 'E', 'A', 'D'],
        "OPTIONS"@ == seq!['O', 'P', 'T', 'I', 'O', 'N', 'S'],
        "TRACE"@ == seq!['T', 'R', 'A', 'C', 'E'],
{
    reveal_strlit("CONNECT");
    reveal_strlit("GET");
    reveal_strlit("POST");
    reveal_strlit("PUT");
    reveal_strlit("PATCH");
    reveal_strlit("DELETE");
    reveal_strlit("HEAD");
    reveal_strlit("OPTIONS");
    reveal_strlit("TRACE");
    assert("CONNECT"@ =~= seq!['C', 'O', 'N', 'N', 'E', 'C', 'T']);
    assert("GET"@ =~= seq!['G', 'E', 'T']);
    assert("POST"@ =~= seq!['P', 'O', 'S', 'T']);
    assert("PUT"@ =~= seq!['P', 'U', 'T']);
    assert("PATCH"@ =~= seq!['P', 'A', 'T', 'C', 'H']);
    assert("DELETE"@ =~= seq!['D', 'E', 'L', 'E', 'T', 'E']);
    assert("HEAD"@ =~= seq!['H', 'E', 'A', 'D']);
    assert("OPTIONS"@ =~= seq!['O', 'P', 'T', 'I', 'O', 'N', 'S']);
    assert("TRACE"@ =~= seq!['T', 'R', 'A', 'C', 'E']);
}

/// A method is read back from its own token, and its token holds no
/// whitespace and is not empty.
pub proof fn law_method_token_reads_back(method: Method)
    ensures
        Method::of_text(method.text()) == Some(method),
        method.text().len() > 0,
        forall|i: int|
            0 <= i < method.text().len() ==> !crate::text::is_whitespace(
                #[trigger] method.text()[i],
            ),
{
    lemma_method_tokens();
    let t = method.text();
    match method {
        Method::CONNECT => {
            assert(t[0] == 'C' && t.len() == 7);
        },
        Method::GET => {
            assert(t[0] == 'G');
        },
        Method::POST => {
            assert(t[0] == 'P' && t[1] == 'O');
        },
        Method::PUT => {
            assert(t[0] == 'P' && t[1] == 'U');
        },
        Method::PATCH => {
            assert(t[0] == 'P' && t[1] == 'A');
        },
        Method::DELETE => {
            assert(t[0] == 'D');
        },
        Method::HEAD => {
            assert(t[0] == 'H');
        },
        Method::OPTIONS => {
            assert(t[0] == 'O');
        },
        Method::TRACE => {
            assert(t[0] == 'T');
        },
    }
    assert("GET"@[0] == 'G');
    assert("PUT"@[1] == 'U');
    assert("HEAD"@[0] == 'H');
    assert("POST"@[1] == 'O');
    assert("PATCH"@[1] == 'A');
    assert("DELETE"@[0] == 'D');
    assert("OPTIONS"@[0] == 'O');
    assert("CONNECT"@[0] == 'C');
    assert("TRACE"@[0] == 'T');
}

/// The model of a request.
pub struct RequestView {
    pub method: Method,
    pub resource: Seq<char>,
    pub version: Seq<char>,
    pub headers: HeaderList,
    pub body: Seq<char>,
}

/// A request: the method, the request target (for `CONNECT`, `host:port`),
/// the protocol version, the headers and the body.
#[derive(Debug)]
pub struct Request {
    pub method: Method,
    pub resource: String,
    pub version: String,
    pub headers: Headers,
    pub body: String,
}

impl View for Request {
    type V = RequestView;

    open spec fn view(&self) -> RequestView {
        RequestView {
            method: self.method,
            resource: self.resource@,
            version: self.version@,
            headers: self.headers@,
            body: self.body@,
        }
    }
}

/// The wire form of a request: the request line, the headers, a blank line
/// and the body.
pub open spec fn request_wire(request: RequestView) -> Seq<char> {
    request.method.text() + seq![' '] + request.resource + seq![' '] + request.version + crlf()
        + serialize(request.headers) + crlf() + request.body
}

/// The method, the target and the version that a request line holds. A line
/// without a word, or with fewer than three, is malformed; a first word that
/// is no method is refused before the other words are looked at.
pub open spec fn parse_request_line(line: Seq<char>) -> Result<
    (Method, Seq<char>, Seq<char>),
    ParseError,
> {
    let words = tokens(line);
    if words.len() == 0 {
        Err(ParseError::MalformedRequest)
    } else {
        match Method::of_text(words[0]) {
            None => Err(ParseError::MethodNotAllowed),
            Some(method) => if words.len() < 3 {
                Err(ParseError::MalformedRequest)
            } else {
                Ok((method, words[1], words[2]))
            },
        }
    }
}

/// The number of body bytes that a request with these headers declares:
/// what `Content-Length` says, and `None` without it.
pub open spec fn request_body_length(headers: HeaderList) -> Result<Option<usize>, ParseError> {
    match declared_length(headers) {
        Declared::Absent => Ok(None),
        Declared::Length(n) => Ok(Some(n)),
        Declared::Unreadable => Err(ParseError::MalformedLength),
    }
}

/// What the text of a request's head, with whatever followed it, holds: the
/// request, with all the text after the first blank line in the place of its
/// body, and the number of body bytes that its headers declare. The text before the first blank
/// line is the request line, a line break, and the header block.
pub open spec fn parse_request_text(text: Seq<char>) -> Result<
    (RequestView, Option<usize>),
    ParseError,
> {
    match find(text, delimiter()) {
        None => Err(ParseError::MalformedRequest),
        Some(d) => {
            let head = text.subrange(0, d);
            match find(head, crlf()) {
                None => Err(ParseError::MalformedRequest),
                Some(e) => match parse_request_line(head.subrange(0, e)) {
                    Err(error) => Err(error),
                    Ok((method, resource, version)) => match parse_block(
                        head.subrange(e + 2, head.len() as int),
                    ) {
                        None => Err(ParseError::MalformedRequest),
                        Some(headers) => match request_body_length(headers) {
                            Err(error) => Err(error),
                            Ok(expected) => Ok(
                                (
                                    RequestView {
                                        method,
                                        resource,
                                        version,
                                        headers,
                                        body: text.subrange(d + 4, text.len() as int),
                                    },
                                    expected,
                                ),
                            ),
                        },
                    },
                },
            }
        },
    }
}

/// What the bytes that arrived while the head of a request was read hold.
/// The bytes up to and with the first blank line must be UTF-8 and are read
/// as text: they give the request, still without a body, and the number of
/// body bytes that its headers declare. The bytes after the blank line are
/// handed on as they are. Bytes without a blank line hold no request.
pub open spec fn parse_request_bytes(bytes: Seq<u8>) -> Result<
    (RequestView, Option<usize>, Seq<u8>),
    ParseError,
> {
    match first_blank_line(bytes) {
        None => match decoded(bytes) {
            None => Err(ParseError::InvalidEncoding),
            Some(_) => Err(ParseError::MalformedRequest),
        },
        Some(d) => match decoded(bytes.take(d + 4)) {
            None => Err(ParseError::InvalidEncoding),
            Some(head) => match parse_request_text(head) {
                Err(error) => Err(error),
                Ok((request, declared)) => Ok(
                    (RequestView { body: Seq::empty(), ..request }, declared, bytes.skip(d + 4)),
                ),
            },
        },
    }
}

/// The method, the target and the version of the request line `line`, the
/// latter two as bounds within `line`.
fn read_request_line(line: &[char], Ghost(text): Ghost<Seq<char>>) -> (r: Result<
    (Method, (usize, usize), (usize, usize)),
    ParseError,
>)
    requires
        line@.len() <= text.len(),
        line@ == text.subrange(0, line@.len() as int),
    ensures
        match r {
            Ok((method, resource, version)) => {
                &&& resource.0 <= resource.1 <= line@.len()
                &&& version.0 <= version.1 <= line@.len()
                &&& parse_request_line(line@) == Ok::<_, ParseError>(
                    (
                        method,
                        text.subrange(resource.0 as int, resource.1 as int),
                        text.subrange(version.0 as int, version.1 as int),
                    ),
                )
            },
            Err(error) => parse_request_line(line@) == Err::<(Method, Seq<char>, Seq<char>), _>(
                error,
            ),
        },
{
    let words = token_bounds(line);
    if words.len() == 0 {
        return Err(ParseError::MalformedRequest);
    }
    let first = words[0];
    let token = vstd::slice::slice_subrange(line, first.0, first.1);
    let method = match method_of(token) {
        Some(method) => method,
        None => {
            return Err(ParseError::MethodNotAllowed);
        },
    };
    if words.len() < 3 {
        return Err(ParseError::MalformedRequest);
    }
    let resource = words[1];
    let version = words[2];
    proof {
        assert(line@.subrange(resource.0 as int, resource.1 as int) =~= text.subrange(
            resource.0 as int,
            resource.1 as int,
        ));
        assert(line@.subrange(version.0 as int, version.1 as int) =~= text.subrange(
            version.0 as int,
            version.1 as int,
        ));
    }
    Ok((method, resource, version))
}

/// The method whose token is `token`.
fn method_of(token: &[char]) -> (r: Option<Method>)
    ensures
        r == Method::of_text(token@),
{
    proof {
        lemma_method_tokens();
    }
    let n: usize = token.len();
    if n == 3 && token[0] == 'G' && token[1] == 'E' && token[2] == 'T' {
        assert(token@ =~= "GET"@);
        Some(Method::GET)
    } else if n == 3 && token[0] == 'P' && token[1] == 'U' && token[2] == 'T' {
        assert(token@ =~= "PUT"@);
        Some(Method::PUT)
    } else if n == 4 && token[0] == 'H' && token[1] == 'E' && token[2] == 'A' && token[3] == 'D' {
        assert(token@ =~= "HEAD"@);
        Some(Method::HEAD)
    } else if n == 4 && token[0] == 'P' && token[1] == 'O' && token[2] == 'S' && token[3] == 'T' {
        assert(token@ =~= "POST"@);
        Some(Method::POST)
    } else if n == 5 && token[0] == 'P' && token[1] == 'A' && token[2] == 'T' && token[3] == 'C'
        && token[4] == 'H' {
        assert(token@ =~= "PATCH"@);
        Some(Method::PATCH)
    } else if n == 6 && token[0] == 'D' && token[1] == 'E' && token[2] == 'L' && token[3] == 'E'
        && token[4] == 'T' && token[5] == 'E' {
        assert(token@ =~= "DELETE"@);
        Some(Method::DELETE)
    } else if n == 7 && token[0] == 'O' && token[1] == 'P' && token[2] == 'T' && token[3] == 'I'
        && token[4] == 'O' && token[5] == 'N' && token[6] == 'S' {
        assert(token@ =~= "OPTIONS"@);
        Some(Method::OPTIONS)
    } else if n == 7 && token[0] == 'C' && token[1] == 'O' && token[2] == 'N' && token[3] == 'N'
        && token[4] == 'E' && token[5] == 'C' && token[6] == 'T' {
        assert(token@ =~= "CONNECT"@);
        Some(Method::CONNECT)
    } else if n == 5 && token[0] == 'T' && token[1] == 'R' && token[2] == 'A' && token[3] == 'C'
        && token[4] == 'E' {
        assert(token@ =~= "TRACE"@);
        Some(Method::TRACE)
    } else {
        None
    }
}

impl Request {
    /// Reads the text of a request's head, with whatever followed it: the
    /// request, with all the text after the first blank line in the place
    /// of its body, and the number of body bytes that its headers declare.
    /// The text after the blank line is not cut here: it may hold more than
    /// the body.
    pub fn parse_text(text: &str) -> (parsed: Result<(Request, Option<usize>), ParseError>)
        ensures
            match parsed {
                Ok((request, expected)) => parse_request_text(text@) == Ok::<_, ParseError>(
                    (request@, expected),
                ),
                Err(error) => parse_request_text(text@) == Err::<
                    (RequestView, Option<usize>),
                    _,
                >(error),
            },
    {
        let chars = chars_of(text);
        let all: &[char] = chars.as_slice();
        let length: usize = all.len();
        let blank: Vec<char> = vec!['\r', '\n', '\r', '\n'];
        let terminator: Vec<char> = vec!['\r', '\n'];
        let d: usize = match find_in(all, blank.as_slice(), 0) {
            Some(d) => d,
            None => {
                return Err(ParseError::MalformedRequest);
            },
        };
        proof {
            lemma_find_from(all@, delimiter(), 0);
        }
        let head = vstd::slice::slice_subrange(all, 0, d);
        let e: usize = match find_in(head, terminator.as_slice(), 0) {
            Some(e) => e,
            None => {
                return Err(ParseError::MalformedRequest);
            },
        };
        proof {
            lemma_find_from(head@, crlf(), 0);
        }
        let line = vstd::slice::slice_subrange(head, 0, e);
        proof {
            assert(line@ =~= text@.subrange(0, e as int));
        }
        let (method, resource, version) = match read_request_line(line, Ghost(text@)) {
            Ok(parts) => parts,
            Err(error) => {
                return Err(error);
            },
        };
        let block = piece(text, e + 2, d);
        proof {
            assert(block@ =~= head@.subrange(e + 2, head@.len() as int));
        }
        let headers = match Headers::parse(block.as_str()) {
            Ok(headers) => headers,
            Err(_) => {
                return Err(ParseError::MalformedRequest);
            },
        };
        let expected: Option<usize> = match content_length(&headers) {
            Declared::Absent => None,
            Declared::Length(n) => Some(n),
            Declared::Unreadable => {
                return Err(ParseError::MalformedLength);
            },
        };
        let request = Request {
            method,
            resource: piece(text, resource.0, resource.1),
            version: piece(text, version.0, version.1),
            headers,
            body: piece(text, d + 4, length),
        };
        Ok((request, expected))
    }

    /// Reads the bytes that arrived while the head of a request was read: the
    /// request, still without a body, the number of body bytes that its
    /// headers declare, and the bytes that came after the blank line.
    pub fn parse_head(bytes: &[u8]) -> (parsed: Result<
        (Request, Option<usize>, Vec<u8>),
        ParseError,
    >)
        ensures
            match parsed {
                Ok((request, declared, body)) => parse_request_bytes(bytes@) == Ok::<_, ParseError>(
                    (request@, declared, body@),
                ),
                Err(error) => parse_request_bytes(bytes@) == Err::<
                    (RequestView, Option<usize>, Seq<u8>),
                    _,
                >(error),
            },
    {
        let length: usize = bytes.len();
        let d: usize = match find_blank_line(bytes) {
            Some(d) => d,
            None => {
                return match decode(bytes) {
                    Some(_) => Err(ParseError::MalformedRequest),
                    None => Err(ParseError::InvalidEncoding),
                };
            },
        };
        let head = vstd::slice::slice_subrange(bytes, 0, d + 4);
        let text = match decode(head) {
            Some(text) => text,
            None => {
                return Err(ParseError::InvalidEncoding);
            },
        };
        let (mut request, declared) = match Request::parse_text(text) {
            Ok(parts) => parts,
            Err(error) => {
                return Err(error);
            },
        };
        request.body = String::new();
        let body = vstd::slice::slice_to_vec(vstd::slice::slice_subrange(bytes, d + 4, length));
        Ok((request, declared, body))
    }

    /// The wire form of the request: the request line, the headers, a blank
    /// line and the body.
    pub fn to_string(&self) -> (wire: String)
        ensures
            wire@ == request_wire(self@),
    {
        proof {
            reveal_strlit(" ");
            reveal_strlit("\r\n");
        }
        let mut wire = self.method.to_string();
        wire.append(" ");
        wire.append(self.resource.as_str());
        wire.append(" ");
        wire.append(self.version.as_str());
        wire.append("\r\n");
        let headers = self.headers.to_string();
        wire.append(headers.as_str());
        wire.append("\r\n");
        wire.append(self.body.as_str());
        wire
    }

    /// Appends the wire form of the request, as bytes, to `writable`.
    pub fn write(&self, writable: &mut Vec<u8>)
        ensures
            final(writable)@ == old(writable)@ + vstd::utf8::encode_utf8(request_wire(self@)),
    {
        let wire = self.to_string();
        writable.extend_from_slice(wire.as_str().as_bytes());
    }
}

/// `body` has no more bytes than `headers` declare, if they declare a
/// length.
pub open spec fn body_within_declared(headers: HeaderList, body: Seq<char>) -> bool {
    match declared_length(headers) {
        Declared::Length(n) => utf8_len(body) <= n,
        _ => true,
    }
}

/// How far the reading of a request has come.
pub enum RequestProgress {
    /// The head is being read; these bytes have arrived.
    Head(Seq<u8>),
    /// The head is read, and these bytes of the body have arrived; the body
    /// itself is not set yet.
    Body(RequestView, usize, Seq<u8>),
    /// The request is complete; the bytes were read after its end.
    Done(RequestView, Seq<u8>),
    /// The request could not be read.
    Failed(ParseError),
}

/// The reading of one request from bytes as they arrive. The reader of the
/// stream hands over each chunk that it gets and asks whether more is
/// wanted.
#[derive(Debug)]
pub enum RequestParser {
    /// The head is being read; these bytes have arrived.
    Head(Vec<u8>),
    /// The head is read, and these bytes of the body have arrived; the body
    /// itself is not set yet.
    Body(Request, usize, Vec<u8>),
    /// The request is complete; the bytes were read after its end and
    /// belong to whatever follows it on the stream.
    Done(Request, Vec<u8>),
    /// The request could not be read.
    Failed(ParseError),
}

impl View for RequestParser {
    type V = RequestProgress;

    open spec fn view(&self) -> RequestProgress {
        match self {
            RequestParser::Head(bytes) => RequestProgress::Head(bytes@),
            RequestParser::Body(request, expected, bytes) => RequestProgress::Body(
                request@,
                *expected,
                bytes@,
            ),
            RequestParser::Done(request, rest) => RequestProgress::Done(request@, rest@),
            RequestParser::Failed(error) => RequestProgress::Failed(*error),
        }
    }
}

impl RequestProgress {
    /// More bytes are wanted.
    pub open spec fn reading(self) -> bool {
        self is Head || self is Body
    }

    /// How many kinds of step lie ahead at most: two while the head is
    /// read, one while the body is read, none at the end.
    pub open spec fn rank(self) -> nat {
        match self {
            RequestProgress::Head(_) => 2,
            RequestProgress::Body(_, _, _) => 1,
            _ => 0,
        }
    }

    /// The result of the reading, once it has ended.
    pub open spec fn outcome(self) -> Option<Result<RequestView, ParseError>> {
        match self {
            RequestProgress::Done(request, _) => Some(Ok(request)),
            RequestProgress::Failed(error) => Some(Err(error)),
            _ => None,
        }
    }

    /// The bytes that were read after the end of the request.
    pub open spec fn leftover(self) -> Seq<u8> {
        match self {
            RequestProgress::Done(_, rest) => rest,
            _ => Seq::empty(),
        }
    }

    /// The last of the bytes that were read, as far as the state still
    /// holds them: all of them while the head is read, those of the body
    /// while the body is read, those after the request at the end.
    pub open spec fn held(self) -> Seq<u8> {
        match self {
            RequestProgress::Head(bytes) => bytes,
            RequestProgress::Body(_, _, bytes) => bytes,
            RequestProgress::Done(_, rest) => rest,
            RequestProgress::Failed(_) => Seq::empty(),
        }
    }

    /// The body keeps within the declared length: while it is read, fewer
    /// bytes have arrived than the headers declare, and at the end it has no
    /// more bytes than they declare.
    pub open spec fn within_declared(self) -> bool {
        match self {
            RequestProgress::Body(request, expected, bytes) => {
                &&& declared_length(request.headers) == Declared::Length(expected)
                &&& bytes.len() < expected
            },
            RequestProgress::Done(request, _) => body_within_declared(
                request.headers,
                request.body,
            ),
            _ => true,
        }
    }
}

/// The request with the text that `bytes` spell as its body, and `rest` left
/// over; `InvalidBodyEncoding` where `bytes` are not UTF-8.
pub open spec fn request_completed(request: RequestView, bytes: Seq<u8>, rest: Seq<u8>)
    -> RequestProgress {
    match decoded(bytes) {
        Some(body) => RequestProgress::Done(RequestView { body, ..request }, rest),
        None => RequestProgress::Failed(ParseError::InvalidBodyEncoding),
    }
}

/// Where a request stands whose head is read, when `bytes` have arrived after
/// the blank line.
///
/// Without a declared length the request is complete with what came with
/// its head as its body. With a declared length of `n` bytes it waits for
/// more while fewer than `n` have arrived; once `n` bytes or more are
/// there, the body is the text of exactly the first `n` and the bytes after
/// them are left over: they are not part of the request. Where the body's
/// bytes are not UTF-8, as when byte `n` falls inside a character, the
/// reading fails with `InvalidBodyEncoding`.
pub open spec fn request_settled(request: RequestView, declared: Option<usize>, bytes: Seq<u8>)
    -> RequestProgress {
    match declared {
        None => request_completed(request, bytes, Seq::empty()),
        Some(limit) => if bytes.len() < limit {
            RequestProgress::Body(request, limit, bytes)
        } else {
            request_completed(request, bytes.take(limit as int), bytes.skip(limit as int))
        },
    }
}

/// Where the reading stands once the head's bytes are all there.
pub open spec fn request_head_read(bytes: Seq<u8>) -> RequestProgress {
    match parse_request_bytes(bytes) {
        Err(error) => RequestProgress::Failed(error),
        Ok((request, declared, body)) => request_settled(request, declared, body),
    }
}

/// The next state after `chunk` has arrived; an empty chunk means that the
/// stream has ended.
///
/// While the head is read, the chunk joins the bytes so far, and the head
/// counts as read as soon as all of these bytes together hold a blank line,
/// or when the stream ends. A stream that ends before its first byte is
/// `Closed`. While the body is read, the chunk joins the
/// bytes of the body; a character may be split between two chunks. The
/// request is complete as soon as the declared number of bytes is there,
/// with these as its body and what came after them left over; or when the
/// stream ends, with the body that is there.
pub open spec fn request_fed(state: RequestProgress, chunk: Seq<u8>) -> RequestProgress {
    match state {
        RequestProgress::Head(bytes) => if chunk.len() == 0 {
            if bytes.len() == 0 {
                RequestProgress::Failed(ParseError::Closed)
            } else {
                request_head_read(bytes)
            }
        } else if holds_blank_line(bytes + chunk) {
            request_head_read(bytes + chunk)
        } else {
            RequestProgress::Head(bytes + chunk)
        },
        RequestProgress::Body(request, expected, bytes) => if chunk.len() == 0 {
            request_completed(request, bytes, Seq::empty())
        } else {
            request_settled(request, Some(expected), bytes + chunk)
        },
        _ => state,
    }
}

/// The next state after the stream has failed.
pub open spec fn request_read_failed(state: RequestProgress) -> RequestProgress {
    match state {
        RequestProgress::Head(_) => RequestProgress::Failed(ParseError::ReadFailed),
        RequestProgress::Body(_, _, _) => RequestProgress::Failed(ParseError::BodyReadFailed),
        _ => state,
    }
}

/// The number of bytes that one read asks for while a request is read.
pub const REQUEST_CHUNK: usize = 1024;

/// The state in which the reading ends, and the bytes that are then left
/// unread, when the bytes `pending` are read from `state` on,
/// `REQUEST_CHUNK` at a time, until the parser wants no more. The bytes
/// that were read after the end of the request count as unread.
pub open spec fn request_run(state: RequestProgress, pending: Seq<u8>) -> (RequestProgress, Seq<u8>)
    decreases pending.len(), state.rank(),
{
    if state.reading() {
        let n = crate::wire::first_chunk_len(pending, REQUEST_CHUNK as nat) as int;
        let next = request_fed(state, pending.take(n));
        if n > 0 {
            request_run(next, pending.skip(n))
        } else if next.rank() < state.rank() {
            request_run(next, pending)
        } else {
            (next, next.leftover() + pending)
        }
    } else {
        (state, state.leftover() + pending)
    }
}

/// What comes of reading a request from a stream that yields `bytes` and
/// then ends: the final state, and the bytes left unread.
pub open spec fn request_read(bytes: Seq<u8>) -> (RequestProgress, Seq<u8>) {
    request_run(RequestProgress::Head(Seq::empty()), bytes)
}

/// What is read from a head has the length that its headers declare.
pub proof fn lemma_parsed_request(bytes: Seq<u8>)
    ensures
        parse_request_bytes(bytes) matches Ok((request, declared, body)) ==> {
            &&& request_body_length(request.headers) == Ok::<_, ParseError>(declared)
            &&& ends_with(bytes, body)
        },
{
    if let Ok((request, declared, body)) = parse_request_bytes(bytes) {
        crate::wire::lemma_blank_line_from(bytes, 0);
        assert(bytes.skip(bytes.len() - body.len()) =~= body);
    }
}

/// A request that is completed with `n` bytes has a body of `n` bytes.
pub proof fn lemma_request_completed(request: RequestView, bytes: Seq<u8>, rest: Seq<u8>)
    ensures
        request_completed(request, bytes, rest) matches RequestProgress::Done(whole, _) ==> {
            &&& utf8_len(whole.body) == bytes.len()
            &&& whole.headers == request.headers
        },
{
    if valid_utf8(bytes) {
        vstd::utf8::decode_utf8_encode_utf8(bytes);
    }
}

/// A request that is settled keeps its body within the declared length, and
/// the bytes that it holds are the last of the bytes that followed its
/// head.
pub proof fn lemma_request_settled(request: RequestView, declared: Option<usize>, bytes: Seq<u8>)
    requires
        request_body_length(request.headers) == Ok::<_, ParseError>(declared),
    ensures
        request_settled(request, declared, bytes).within_declared(),
        ends_with(bytes, request_settled(request, declared, bytes).held()),
{
    assert(bytes.skip(0) =~= bytes);
    assert(bytes.skip(bytes.len() as int) =~= Seq::<u8>::empty());
    lemma_request_completed(request, bytes, Seq::empty());
    if let Some(limit) = declared {
        if bytes.len() >= limit {
            lemma_request_completed(request, bytes.take(limit as int), bytes.skip(limit as int));
            let rest = bytes.skip(limit as int);
            assert(bytes.skip(bytes.len() - rest.len()) =~= rest);
        }
    }
}

/// One chunk more keeps the body within the declared length, and the bytes
/// that the state holds stay the last of the bytes that were read.
pub proof fn lemma_request_fed(state: RequestProgress, chunk: Seq<u8>, read: Seq<u8>)
    requires
        state.within_declared(),
        ends_with(read, state.held()),
    ensures
        request_fed(state, chunk).within_declared(),
        state.reading() ==> ends_with(read + chunk, request_fed(state, chunk).held()),
{
    let all = read + chunk;
    assert(all.skip(all.len() as int) =~= Seq::<u8>::empty());
    match state {
        RequestProgress::Head(bytes) => {
            let seen = bytes + chunk;
            assert(all.skip(all.len() - seen.len()) =~= seen);
            if chunk.len() == 0 {
                assert(seen =~= bytes);
            }
            if let Ok((request, declared, body)) = parse_request_bytes(seen) {
                lemma_parsed_request(seen);
                lemma_request_settled(request, declared, body);
                let held = request_settled(request, declared, body).held();
                assert(all.skip(all.len() - body.len()) =~= body);
                assert(all.skip(all.len() - held.len()) =~= held);
            }
        },
        RequestProgress::Body(request, expected, bytes) => {
            let seen = bytes + chunk;
            assert(all.skip(all.len() - seen.len()) =~= seen);
            lemma_request_completed(request, bytes, Seq::empty());
            if chunk.len() > 0 {
                lemma_request_settled(request, Some(expected), seen);
                let held = request_settled(request, Some(expected), seen).held();
                assert(all.skip(all.len() - held.len()) =~= held);
            }
        },
        _ => {},
    }
}

impl RequestParser {
    /// A parser that has read nothing yet.
    pub fn new() -> (parser: RequestParser)
        ensures
            parser@ == RequestProgress::Head(Seq::empty()),
            parser@.within_declared(),
    {
        RequestParser::Head(Vec::new())
    }

    /// Whether more bytes are wanted. Once this is `false` it stays so.
    pub fn is_reading(&self) -> (reading: bool)
        ensures
            reading == self@.reading(),
    {
        match self {
            RequestParser::Head(_) => true,
            RequestParser::Body(_, _, _) => true,
            _ => false,
        }
    }

    /// The request with the text that `bytes` spell as its body.
    fn complete(request: Request, bytes: &[u8], rest: Vec<u8>) -> (parser: RequestParser)
        ensures
            parser@ == request_completed(request@, bytes@, rest@),
    {
        let mut whole = request;
        match decode(bytes) {
            Some(text) => {
                whole.body = String::from_str(text);
                RequestParser::Done(whole, rest)
            },
            None => RequestParser::Failed(ParseError::InvalidBodyEncoding),
        }
    }

    /// Where a request stands whose head is read, when `bytes` have arrived
    /// after the blank line.
    fn settle(request: Request, declared: Option<usize>, bytes: Vec<u8>) -> (parser: RequestParser)
        ensures
            parser@ == request_settled(request@, declared, bytes@),
    {
        let limit: usize = match declared {
            Some(limit) => limit,
            None => {
                return RequestParser::complete(request, bytes.as_slice(), Vec::new());
            },
        };
        let length: usize = bytes.len();
        if length < limit {
            return RequestParser::Body(request, limit, bytes);
        }
        let body = vstd::slice::slice_subrange(bytes.as_slice(), 0, limit);
        let rest = vstd::slice::slice_to_vec(
            vstd::slice::slice_subrange(bytes.as_slice(), limit, length),
        );
        RequestParser::complete(request, body, rest)
    }

    /// Where the reading stands once the head's bytes are all there.
    fn head_read(bytes: &[u8]) -> (parser: RequestParser)
        ensures
            parser@ == request_head_read(bytes@),
    {
        match Request::parse_head(bytes) {
            Ok((request, declared, body)) => RequestParser::settle(request, declared, body),
            Err(error) => RequestParser::Failed(error),
        }
    }

    /// Takes the chunk that a read returned; an empty chunk means that the
    /// stream has ended. A parser that started empty never lets a body grow
    /// beyond the length that the headers declare.
    pub fn feed(self, chunk: &[u8]) -> (next: RequestParser)
        ensures
            next@ == request_fed(self@, chunk@),
            self@.within_declared() ==> next@.within_declared(),
    {
        proof {
            if self@.within_declared() {
                assert(self@.held().skip(0) =~= self@.held());
                lemma_request_fed(self@, chunk@, self@.held());
            }
        }
        match self {
            RequestParser::Head(mut bytes) => {
                if chunk.len() == 0 {
                    if bytes.len() == 0 {
                        RequestParser::Failed(ParseError::Closed)
                    } else {
                        RequestParser::head_read(bytes.as_slice())
                    }
                } else {
                    let ghost before = bytes@;
                    bytes.extend_from_slice(chunk);
                    proof {
                        assert(bytes@ =~= before + chunk@);
                    }
                    if has_blank_line(bytes.as_slice()) {
                        RequestParser::head_read(bytes.as_slice())
                    } else {
                        RequestParser::Head(bytes)
                    }
                }
            },
            RequestParser::Body(request, expected, mut bytes) => {
                if chunk.len() == 0 {
                    RequestParser::complete(request, bytes.as_slice(), Vec::new())
                } else {
                    let ghost before = bytes@;
                    bytes.extend_from_slice(chunk);
                    proof {
                        assert(bytes@ =~= before + chunk@);
                    }
                    RequestParser::settle(request, Some(expected), bytes)
                }
            },
            RequestParser::Done(request, rest) => RequestParser::Done(request, rest),
            RequestParser::Failed(error) => RequestParser::Failed(error),
        }
    }

    /// Takes note that the stream has failed.
    pub fn fail(self) -> (next: RequestParser)
        ensures
            next@ == request_read_failed(self@),
    {
        match self {
            RequestParser::Head(_) => RequestParser::Failed(ParseError::ReadFailed),
            RequestParser::Body(_, _, _) => RequestParser::Failed(ParseError::BodyReadFailed),
            RequestParser::Done(request, rest) => RequestParser::Done(request, rest),
            RequestParser::Failed(error) => RequestParser::Failed(error),
        }
    }

    /// The result of the reading: the request or the error once the reading
    /// has ended, `None` while more bytes are wanted.
    pub fn finish(self) -> (result: Option<Result<Request, ParseError>>)
        ensures
            match result {
                Some(Ok(request)) => self@.outcome() == Some(Ok::<_, ParseError>(request@)),
                Some(Err(error)) => self@.outcome() == Some(Err::<RequestView, _>(error)),
                None => self@.outcome().is_none(),
            },
    {
        match self {
            RequestParser::Done(request, _) => Some(Ok(request)),
            RequestParser::Failed(error) => Some(Err(error)),
            _ => None,
        }
    }

    /// The bytes that were read after the end of the request: they belong
    /// to whatever follows it on the stream. Empty while the reading goes
    /// on and after a failure.
    pub fn leftover(&self) -> (rest: Vec<u8>)
        ensures
            rest@ == self@.leftover(),
    {
        match self {
            RequestParser::Done(_, rest) => rest.clone(),
            _ => Vec::new(),
        }
    }
}

impl Request {
    /// Reads one request from `input`, `REQUEST_CHUNK` bytes at a time: the
    /// head up to the first blank line, then the body until it has the
    /// length that `Content-Length` declares or the input ends. The
    /// body never has more bytes than declared: what was read beyond them
    /// is given back to `input`. A body cut short by the end of the input
    /// is accepted as it is.
    pub fn parse(input: &mut Cursor) -> (parsed: Result<Request, ParseError>)
        ensures
            match parsed {
                Ok(request) => {
                    &&& request_read(old(input).remaining()).0.outcome() == Some(
                        Ok::<_, ParseError>(request@),
                    )
                    &&& body_within_declared(request@.headers, request@.body)
                },
                Err(error) => request_read(old(input).remaining()).0 == RequestProgress::Failed(
                    error,
                ),
            },
            final(input).remaining() == request_read(old(input).remaining()).1,
    {
        let mut parser = RequestParser::new();
        proof {
            let read = input.consumed();
            assert(read.skip(read.len() as int) =~= Seq::<u8>::empty());
        }
        while parser.is_reading()
            invariant
                request_read(old(input).remaining()) == request_run(parser@, input.remaining()),
                parser@.within_declared(),
                ends_with(input.consumed(), parser@.held()),
            decreases input.remaining().len(), parser@.rank(),
        {
            let ghost pending = input.remaining();
            let ghost state = parser@;
            let ghost read = input.consumed();
            let chunk = input.read(REQUEST_CHUNK);
            parser = parser.feed(chunk.as_slice());
            proof {
                let n = crate::wire::first_chunk_len(pending, REQUEST_CHUNK as nat) as int;
                if n == 0 {
                    assert(pending.skip(0) =~= pending);
                }
                lemma_request_fed(state, chunk@, read);
            }
        }
        let rest = parser.leftover();
        let ghost read = input.consumed();
        input.unread(rest.len());
        proof {
            assert(read.skip(read.len() - rest@.len()) == rest@);
        }
        match parser.finish() {
            Some(result) => result,
            None => Err(ParseError::Closed),
        }
    }
}

/// The model of a request builder: what has been set so far.
pub struct RequestBuilderView {
    pub method: Option<Method>,
    pub resource: Option<Seq<char>>,
    pub version: Option<Seq<char>>,
    pub headers: HeaderList,
    pub body: Option<Seq<char>>,
}

/// The text of an optional string.
pub open spec fn text_of(value: Option<String>) -> Option<Seq<char>> {
    match value {
        Some(s) => Some(s@),
        None => None,
    }
}

/// The protocol version of a message whose builder was given none.
pub open spec fn default_version() -> Seq<char> {
    "HTTP/1.1"@
}

/// What a builder in the state `builder` builds: the request with the
/// defaults filled in (version `HTTP/1.1`, no body), or the name of the
/// first required field that was never set.
pub open spec fn built_request(builder: RequestBuilderView) -> Result<RequestView, Seq<char>> {
    match builder.method {
        None => Err("missing method"@),
        Some(method) => match builder.resource {
            None => Err("missing resource"@),
            Some(resource) => Ok(
                RequestView {
                    method,
                    resource,
                    version: match builder.version {
                        Some(version) => version,
                        None => default_version(),
                    },
                    headers: builder.headers,
                    body: match builder.body {
                        Some(body) => body,
                        None => Seq::empty(),
                    },
                },
            ),
        },
    }
}

/// Builds a request field by field.
#[derive(Debug)]
pub struct RequestBuilder {
    method: Option<Method>,
    resource: Option<String>,
    version: Option<String>,
    headers: Headers,
    body: Option<String>,
}

impl View for RequestBuilder {
    type V = RequestBuilderView;

    closed spec fn view(&self) -> RequestBuilderView {
        RequestBuilderView {
            method: self.method,
            resource: text_of(self.resource),
            version: text_of(self.version),
            headers: self.headers@,
            body: text_of(self.body),
        }
    }
}

impl RequestBuilder {
    /// A builder with nothing set.
    pub fn new() -> (builder: RequestBuilder)
        ensures
            builder@ == (RequestBuilderView {
                method: None,
                resource: None,
                version: None,
                headers: Seq::empty(),
                body: None,
            }),
    {
        RequestBuilder {
            method: None,
            resource: None,
            version: None,
            headers: Headers::new(),
            body: None,
        }
    }

    /// The request, with the defaults filled in; or `missing method`, or
    /// `missing resource`, for the first of the two that was never set.
    pub fn build(self) -> (built: Result<Request, &'static str>)
        ensures
            match built {
                Ok(request) => built_request(self@) == Ok::<_, Seq<char>>(request@),
                Err(reason) => built_request(self@) == Err::<RequestView, _>(reason@),
            },
    {
        let method = match self.method {
            Some(method) => method,
            None => {
                return Err("missing method");
            },
        };
        let resource = match self.resource {
            Some(resource) => resource,
            None => {
                return Err("missing resource");
            },
        };
        let version = match self.version {
            Some(version) => version,
            None => String::from_str("HTTP/1.1"),
        };
        let body = match self.body {
            Some(body) => body,
            None => String::new(),
        };
        Ok(Request { method, resource, version, headers: self.headers, body })
    }

    /// Sets the method.
    pub fn add_method(self, method: Method) -> (builder: RequestBuilder)
        ensures
            builder@ == (RequestBuilderView { method: Some(method), ..self@ }),
    {
        let mut builder = self;
        builder.method = Some(method);
        builder
    }

    /// Sets the request target.
    pub fn add_resource(self, resource: &str) -> (builder: RequestBuilder)
        ensures
            builder@ == (RequestBuilderView { resource: Some(resource@), ..self@ }),
    {
        let mut builder = self;
        builder.resource = Some(String::from_str(resource));
        builder
    }

    /// Sets the protocol version.
    pub fn add_version(self, version: &str) -> (builder: RequestBuilder)
        ensures
            builder@ == (RequestBuilderView { version: Some(version@), ..self@ }),
    {
        let mut builder = self;
        builder.version = Some(String::from_str(version));
        builder
    }

    /// Replaces the headers set so far by `headers`.
    pub fn add_headers(self, headers: Headers) -> (builder: RequestBuilder)
        ensures
            builder@ == (RequestBuilderView { headers: headers@, ..self@ }),
    {
        let mut builder = self;
        builder.headers = headers;
        builder
    }

    /// Stores `value` under `key` in the headers set so far.
    pub fn add_header(self, key: &str, value: &str) -> (builder: RequestBuilder)
        ensures
            builder@ == (RequestBuilderView {
                headers: crate::headers::store(self@.headers, key@, value@),
                ..self@
            }),
    {
        let mut builder = self;
        builder.headers.insert(key, value);
        builder
    }

    /// Sets the body.
    pub fn add_body(self, body: &str) -> (builder: RequestBuilder)
        ensures
            builder@ == (RequestBuilderView { body: Some(body@), ..self@ }),
    {
        let mut builder = self;
        builder.body = Some(String::from_str(body));
        builder
    }
}

} // verus!
