//! Responses: the response value with its wire form, the reading of a
//! response from bytes as they arrive, and the builder.

use crate::headers::{lookup, parse_block, serialize, store, HeaderList, Headers};
use crate::request::{body_within_declared, default_version, text_of};
use crate::status::StatusCode;
use crate::text::{
    chars_of, crlf, decimal, decimal_string, delimiter, find, find_in, lemma_find_from, piece,
    token_bounds, tokens,
};
use crate::wire::{
    content_length, content_length_name, declared_length, decode, decoded, ends_with,
    find_blank_line, first_blank_line, first_chunk_len, has_blank_line, holds_blank_line,
    utf8_len, Cursor, Declared, ParseError,
};
use vstd::utf8::valid_utf8;
use vstd::prelude::*;

verus! {

/// The model of a response.
pub struct ResponseView {
    pub version: Seq<char>,
    pub status_code: StatusCode,
    pub status_message: Seq<char>,
    pub headers: HeaderList,
    pub body: Seq<char>,
}

/// A response: the protocol version, the status with the message that goes
/// with it on the status line, the headers and the body.
#[derive(Debug)]
pub struct Response {
    pub version: String,
    pub status_code: StatusCode,
    pub status_message: String,
    pub headers: Headers,
    pub body: String,
}

impl View for Response {
    type V = ResponseView;

    open spec fn view(&self) -> ResponseView {
        ResponseView {
            version: self.version@,
            status_code: self.status_code,
            status_message: self.status_message@,
            headers: self.headers@,
            body: self.body@,
        }
    }
}

/// The wire form of a response: the status line, the headers, a blank line
/// and the body. The status goes out as its number, so the number of a
/// status that the registry does not list leaves as it came; the space
/// after the number is written also when the message is empty.
pub open spec fn response_wire(response: ResponseView) -> Seq<char> {
    response.version + seq![' '] + decimal(response.status_code.number() as nat) + seq![' ']
        + response.status_message + crlf() + serialize(response.headers) + crlf()
        + response.body
}

/// The words `words`, with one space between each two.
pub open spec fn join_words(words: Seq<Seq<char>>) -> Seq<char>
    decreases words.len(),
{
    if words.len() == 0 {
        Seq::empty()
    } else if words.len() == 1 {
        words[0]
    } else {
        join_words(words.drop_last()) + seq![' '] + words.last()
    }
}

/// The version, the status and the message that a status line holds: its
/// first word, the status that its second word stands for, and the words
/// after these with one space between each two. A line with fewer than two
/// words is malformed; a line with just two has the empty message.
pub open spec fn parse_status_line(line: Seq<char>) -> Result<
    (Seq<char>, StatusCode, Seq<char>),
    ParseError,
> {
    let words = tokens(line);
    if words.len() < 2 {
        Err(ParseError::InvalidResponse)
    } else {
        Ok(
            (
                words[0],
                StatusCode::of_text(words[1]),
                join_words(words.subrange(2, words.len() as int)),
            ),
        )
    }
}

/// The number of body bytes that a response with these headers expects:
/// what `Content-Length` says; without it, `None`: the body runs until the
/// stream ends.
pub open spec fn response_body_length(headers: HeaderList) -> Result<Option<usize>, ParseError> {
    match declared_length(headers) {
        Declared::Absent => Ok(None),
        Declared::Length(n) => Ok(Some(n)),
        Declared::Unreadable => Err(ParseError::MalformedLength),
    }
}

/// What the text of a response's head, with whatever followed it, holds:
/// the response, with all the text after the first blank line in the place
/// of its body, and the number of body bytes that its headers declare. The text before the first
/// blank line is the status line, a line break, and the header block.
pub open spec fn parse_response_text(text: Seq<char>) -> Result<
    (ResponseView, Option<usize>),
    ParseError,
> {
    match find(text, delimiter()) {
        None => Err(ParseError::InvalidResponse),
        Some(d) => {
            let head = text.subrange(0, d);
            match find(head, crlf()) {
                None => Err(ParseError::InvalidResponse),
                Some(e) => match parse_status_line(head.subrange(0, e)) {
                    Err(error) => Err(error),
                    Ok((version, status_code, status_message)) => match parse_block(
                        head.subrange(e + 2, head.len() as int),
                    ) {
                        None => Err(ParseError::InvalidResponse),
                        Some(headers) => match response_body_length(headers) {
                            Err(error) => Err(error),
                            Ok(expected) => Ok(
                                (
                                    ResponseView {
                                        version,
                                        status_code,
                                        status_message,
                                        headers,
                                        body: text.subrange(d + 4, text.len() as int),
                                    },
                                    expected,
                                ),
                            ),
                        },
                    },
                },
            }
        },
    }
}

/// What the bytes that arrived while the head of a response was read hold.
/// The bytes up to and with the first blank line must be UTF-8 and are read
/// as text: they give the response, still without a body, and the number of
/// body bytes that its headers declare. The bytes after the blank line are
/// handed on as they are. Bytes without a blank line hold no response.
pub open spec fn parse_response_bytes(bytes: Seq<u8>) -> Result<
    (ResponseView, Option<usize>, Seq<u8>),
    ParseError,
> {
    match first_blank_line(bytes) {
        None => match decoded(bytes) {
            None => Err(ParseError::InvalidEncoding),
            Some(_) => Err(ParseError::InvalidResponse),
        },
        Some(d) => match decoded(bytes.take(d + 4)) {
            None => Err(ParseError::InvalidEncoding),
            Some(head) => match parse_response_text(head) {
                Err(error) => Err(error),
                Ok((response, declared)) => Ok(
                    (ResponseView { body: Seq::empty(), ..response }, declared, bytes.skip(d + 4)),
                ),
            },
        },
    }
}

/// The version, the status and the message of the status line `line`, which
/// is the start of `text`.
fn read_status_line(text: &str, line: &[char]) -> (r: Result<
    (String, StatusCode, String),
    ParseError,
>)
    requires
        line@.len() <= text@.len(),
        line@ == text@.subrange(0, line@.len() as int),
    ensures
        match r {
            Ok((version, status_code, status_message)) => parse_status_line(line@) == Ok::<
                _,
                ParseError,
            >((version@, status_code, status_message@)),
            Err(error) => parse_status_line(line@) == Err::<
                (Seq<char>, StatusCode, Seq<char>),
                _,
            >(error),
        },
{
    let words = token_bounds(line);
    let count: usize = words.len();
    if count < 2 {
        return Err(ParseError::InvalidResponse);
    }
    let ghost all = tokens(line@);
    let first = words[0];
    let second = words[1];
    proof {
        assert(line@.subrange(first.0 as int, first.1 as int) =~= text@.subrange(
            first.0 as int,
            first.1 as int,
        ));
        assert(line@.subrange(second.0 as int, second.1 as int) =~= text@.subrange(
            second.0 as int,
            second.1 as int,
        ));
    }
    let version = piece(text, first.0, first.1);
    let code = piece(text, second.0, second.1);
    let status_code = StatusCode::parse(code.as_str());
    let mut status_message = String::new();
    let mut i: usize = 2;
    while i < count
        invariant
            2 <= i <= count,
            count == words@.len(),
            all == tokens(line@),
            words@.len() == all.len(),
            line@.len() <= text@.len(),
            line@ == text@.subrange(0, line@.len() as int),
            forall|k: int|
                0 <= k < words@.len() ==> {
                    &&& (#[trigger] words@[k]).0 <= words@[k].1 <= line@.len()
                    &&& line@.subrange(words@[k].0 as int, words@[k].1 as int) == all[k]
                },
            status_message@ == join_words(all.subrange(2, i as int)),
        decreases count - i,
    {
        let word = words[i];
        proof {
            reveal_strlit(" ");
            let longer = all.subrange(2, i + 1);
            assert(longer.drop_last() =~= all.subrange(2, i as int));
        }
        if i > 2 {
            status_message.append(" ");
        }
        status_message.append(text.substring_char(word.0, word.1));
        i = i + 1;
    }
    Ok((version, status_code, status_message))
}

impl Response {
    /// Reads the text of a response's head, with whatever followed it: the
    /// response, with all the text after the first blank line in the place
    /// of its body, and the number of body bytes that its headers declare.
    /// The text after the blank line is not cut here: it may hold more than
    /// the body.
    pub fn parse_text(text: &str) -> (parsed: Result<(Response, Option<usize>), ParseError>)
        ensures
            match parsed {
                Ok((response, expected)) => parse_response_text(text@) == Ok::<_, ParseError>(
                    (response@, expected),
                ),
                Err(error) => parse_response_text(text@) == Err::<
                    (ResponseView, Option<usize>),
                    _,
                >(error),
            },
    {
        let chars = chars_of(text);
        let all: &[char] = chars.as_slice();
        let length: usize = all.len();
        let blank: Vec<char> = vec!['\r', '\n', '\r', '\n'];
        let terminator: Vec<char> = vec!['\r', '\n'];
        let d: usize = match find_in(all, blank.as_slice(), 0) {
            Some(d) => d,
            None => {
                return Err(ParseError::InvalidResponse);
            },
        };
        proof {
            lemma_find_from(all@, delimiter(), 0);
        }
        let head = vstd::slice::slice_subrange(all, 0, d);
        let e: usize = match find_in(head, terminator.as_slice(), 0) {
            Some(e) => e,
            None => {
                return Err(ParseError::InvalidResponse);
            },
        };
        proof {
            lemma_find_from(head@, crlf(), 0);
        }
        let line = vstd::slice::slice_subrange(head, 0, e);
        proof {
            assert(line@ =~= text@.subrange(0, e as int));
        }
        let (version, status_code, status_message) = match read_status_line(text, line) {
            Ok(parts) => parts,
            Err(error) => {
                return Err(error);
            },
        };
        let block = piece(text, e + 2, d);
        proof {
            assert(block@ =~= head@.subrange(e + 2, head@.len() as int));
        }
        let headers = match Headers::parse(block.as_str()) {
            Ok(headers) => headers,
            Err(_) => {
                return Err(ParseError::InvalidResponse);
            },
        };
        let expected: Option<usize> = match content_length(&headers) {
            Declared::Absent => None,
            Declared::Length(n) => Some(n),
            Declared::Unreadable => {
                return Err(ParseError::MalformedLength);
            },
        };
        let response = Response {
            version,
            status_code,
            status_message,
            headers,
            body: piece(text, d + 4, length),
        };
        Ok((response, expected))
    }

    /// Reads the bytes that arrived while the head of a response was read: the
    /// response, still without a body, the number of body bytes that its
    /// headers declare, and the bytes that came after the blank line.
    pub fn parse_head(bytes: &[u8]) -> (parsed: Result<
        (Response, Option<usize>, Vec<u8>),
        ParseError,
    >)
        ensures
            match parsed {
                Ok((response, declared, body)) => parse_response_bytes(bytes@) == Ok::<
                    _,
                    ParseError,
                >((response@, declared, body@)),
                Err(error) => parse_response_bytes(bytes@) == Err::<
                    (ResponseView, Option<usize>, Seq<u8>),
                    _,
                >(error),
            },
    {
        let length: usize = bytes.len();
        let d: usize = match find_blank_line(bytes) {
            Some(d) => d,
            None => {
                return match decode(bytes) {
                    Some(_) => Err(ParseError::InvalidResponse),
                    None => Err(ParseError::InvalidEncoding),
                };
            },
        };
        let head = vstd::slice::slice_subrange(bytes, 0, d + 4);
        let text = match decode(head) {
            Some(text) => text,
            None => {
                return Err(ParseError::InvalidEncoding);
            },
        };
        let (mut response, declared) = match Response::parse_text(text) {
            Ok(parts) => parts,
            Err(error) => {
                return Err(error);
            },
        };
        response.body = String::new();
        let body = vstd::slice::slice_to_vec(vstd::slice::slice_subrange(bytes, d + 4, length));
        Ok((response, declared, body))
    }

    /// The wire form of the response: the status line, the headers, a blank
    /// line and the body.
    pub fn to_string(&self) -> (wire: String)
        ensures
            wire@ == response_wire(self@),
    {
        proof {
            reveal_strlit(" ");
            reveal_strlit("\r\n");
        }
        let mut wire = self.version.clone();
        wire.append(" ");
        let code = self.status_code.to_string();
        wire.append(code.as_str());
        wire.append(" ");
        wire.append(self.status_message.as_str());
        wire.append("\r\n");
        let headers = self.headers.to_string();
        wire.append(headers.as_str());
        wire.append("\r\n");
        wire.append(self.body.as_str());
        wire
    }

    /// The response that says `status_code` and nothing more: version
    /// `HTTP/1.1`, the canonical reason phrase as the message, no headers
    /// and no body.
    pub fn from(status_code: StatusCode) -> (response: Response)
        ensures
            response@ == (ResponseView {
                version: default_version(),
                status_code,
                status_message: status_code.reason(),
                headers: Seq::empty(),
                body: Seq::empty(),
            }),
    {
        Response {
            version: String::from_str("HTTP/1.1"),
            status_message: String::from_str(status_code.get_status_message()),
            status_code,
            headers: Headers::new(),
            body: String::new(),
        }
    }

    /// Replaces the message of the status line and leaves the rest as it
    /// is.
    pub fn set_status_message(&mut self, status_message: String) -> (response: &mut Response)
        ensures
            response@ == (ResponseView { status_message: status_message@, ..old(self)@ }),
            *final(self) == *final(response),
    {
        self.status_message = status_message;
        self
    }
}

/// How far the reading of a response has come.
pub enum ResponseProgress {
    /// The head is being read; these bytes have arrived.
    Head(Seq<u8>),
    /// The head is read, and these bytes of the body have arrived; the body
    /// itself is not set yet.
    Body(ResponseView, Option<usize>, Seq<u8>),
    /// The response is complete; the bytes were read after its end.
    Done(ResponseView, Seq<u8>),
    /// The response could not be read.
    Failed(ParseError),
}

/// The reading of one response from bytes as they arrive. The reader of
/// the stream hands over each chunk that it gets and asks whether more is
/// wanted; a read that fails counts as the end of the stream.
#[derive(Debug)]
pub enum ResponseParser {
    /// The head is being read; these bytes have arrived.
    Head(Vec<u8>),
    /// The head is read, and these bytes of the body have arrived; the body
    /// itself is not set yet.
    Body(Response, Option<usize>, Vec<u8>),
    /// The response is complete; the bytes were read after its end and
    /// belong to whatever follows it on the stream.
    Done(Response, Vec<u8>),
    /// The response could not be read.
    Failed(ParseError),
}

impl View for ResponseParser {
    type V = ResponseProgress;

    open spec fn view(&self) -> ResponseProgress {
        match self {
            ResponseParser::Head(bytes) => ResponseProgress::Head(bytes@),
            ResponseParser::Body(response, expected, bytes) => ResponseProgress::Body(
                response@,
                *expected,
                bytes@,
            ),
            ResponseParser::Done(response, rest) => ResponseProgress::Done(response@, rest@),
            ResponseParser::Failed(error) => ResponseProgress::Failed(*error),
        }
    }
}

impl ResponseProgress {
    /// More bytes are wanted.
    pub open spec fn reading(self) -> bool {
        self is Head || self is Body
    }

    /// How many kinds of step lie ahead at most: two while the head is
    /// read, one while the body is read, none at the end.
    pub open spec fn rank(self) -> nat {
        match self {
            ResponseProgress::Head(_) => 2,
            ResponseProgress::Body(_, _, _) => 1,
            _ => 0,
        }
    }

    /// The result of the reading, once it has ended.
    pub open spec fn outcome(self) -> Option<Result<ResponseView, ParseError>> {
        match self {
            ResponseProgress::Done(response, _) => Some(Ok(response)),
            ResponseProgress::Failed(error) => Some(Err(error)),
            _ => None,
        }
    }

    /// The bytes that were read after the end of the response.
    pub open spec fn leftover(self) -> Seq<u8> {
        match self {
            ResponseProgress::Done(_, rest) => rest,
            _ => Seq::empty(),
        }
    }

    /// The last of the bytes that were read, as far as the state still
    /// holds them: all of them while the head is read, those of the body
    /// while the body is read, those after the response at the end.
    pub open spec fn held(self) -> Seq<u8> {
        match self {
            ResponseProgress::Head(bytes) => bytes,
            ResponseProgress::Body(_, _, bytes) => bytes,
            ResponseProgress::Done(_, rest) => rest,
            ResponseProgress::Failed(_) => Seq::empty(),
        }
    }

    /// The body keeps within the declared length: while it is read, fewer
    /// bytes have arrived than the headers declare, and at the end it has no
    /// more bytes than they declare.
    pub open spec fn within_declared(self) -> bool {
        match self {
            ResponseProgress::Body(response, expected, bytes) => {
                &&& response_body_length(response.headers) == Ok::<_, ParseError>(expected)
                &&& expected matches Some(limit) ==> bytes.len() < limit
            },
            ResponseProgress::Done(response, _) => body_within_declared(
                response.headers,
                response.body,
            ),
            _ => true,
        }
    }
}

/// The response with the text that `bytes` spell as its body, and `rest` left
/// over; `InvalidBodyEncoding` where `bytes` are not UTF-8.
pub open spec fn response_completed(response: ResponseView, bytes: Seq<u8>, rest: Seq<u8>)
    -> ResponseProgress {
    match decoded(bytes) {
        Some(body) => ResponseProgress::Done(ResponseView { body, ..response }, rest),
        None => ResponseProgress::Failed(ParseError::InvalidBodyEncoding),
    }
}

/// Where a response stands whose head is read, when `bytes` have arrived after
/// the blank line.
///
/// Without a declared length it waits until the stream ends. With a
/// declared length of `n` bytes it waits for more while fewer than `n` have
/// arrived; once `n` bytes or more are there, the body is the text of
/// exactly the first `n` and the bytes after them are left over: they are
/// not part of the response. Where the body's bytes are not UTF-8, as when
/// byte `n` falls inside a character, the reading fails with
/// `InvalidBodyEncoding`.
pub open spec fn response_settled(response: ResponseView, declared: Option<usize>, bytes: Seq<u8>)
    -> ResponseProgress {
    match declared {
        None => ResponseProgress::Body(response, None, bytes),
        Some(limit) => if bytes.len() < limit {
            ResponseProgress::Body(response, declared, bytes)
        } else {
            response_completed(response, bytes.take(limit as int), bytes.skip(limit as int))
        },
    }
}

/// Where the reading stands once the head's bytes are all there.
pub open spec fn response_head_read(bytes: Seq<u8>) -> ResponseProgress {
    match parse_response_bytes(bytes) {
        Err(error) => ResponseProgress::Failed(error),
        Ok((response, declared, body)) => response_settled(response, declared, body),
    }
}

/// The next state after `chunk` has arrived; an empty chunk means that the
/// stream has ended.
///
/// While the head is read, the chunk joins the bytes so far, and the head
/// counts as read as soon as all of these bytes together hold a blank line,
/// or when the stream ends. While the body is read, the chunk joins the
/// bytes of the body; a character may be split between two chunks. The
/// response is complete as soon as the declared number of bytes is there,
/// with these as its body and what came after them left over; or when the
/// stream ends, with the body that is there.
pub open spec fn response_fed(state: ResponseProgress, chunk: Seq<u8>) -> ResponseProgress {
    match state {
        ResponseProgress::Head(bytes) => if chunk.len() == 0 {
            response_head_read(bytes)
        } else if holds_blank_line(bytes + chunk) {
            response_head_read(bytes + chunk)
        } else {
            ResponseProgress::Head(bytes + chunk)
        },
        ResponseProgress::Body(response, expected, bytes) => if chunk.len() == 0 {
            response_completed(response, bytes, Seq::empty())
        } else {
            response_settled(response, expected, bytes + chunk)
        },
        _ => state,
    }
}

/// The number of bytes that one read asks for while a response is read.
pub const RESPONSE_CHUNK: usize = 4096;

/// The state in which the reading ends, and the bytes that are then left
/// unread, when the bytes `pending` are read from `state` on,
/// `RESPONSE_CHUNK` at a time, until the parser wants no more. The bytes
/// that were read after the end of the response count as unread.
pub open spec fn response_run(state: ResponseProgress, pending: Seq<u8>) -> (
    ResponseProgress,
    Seq<u8>,
)
    decreases pending.len(), state.rank(),
{
    if state.reading() {
        let n = first_chunk_len(pending, RESPONSE_CHUNK as nat) as int;
        let next = response_fed(state, pending.take(n));
        if n > 0 {
            response_run(next, pending.skip(n))
        } else if next.rank() < state.rank() {
            response_run(next, pending)
        } else {
            (next, next.leftover() + pending)
        }
    } else {
        (state, state.leftover() + pending)
    }
}

/// What comes of reading a response from a stream that yields `bytes` and
/// then ends: the final state, and the bytes left unread.
pub open spec fn response_read(bytes: Seq<u8>) -> (ResponseProgress, Seq<u8>) {
    response_run(ResponseProgress::Head(Seq::empty()), bytes)
}

/// What is read from a head has the length that its headers declare.
pub proof fn lemma_parsed_response(bytes: Seq<u8>)
    ensures
        parse_response_bytes(bytes) matches Ok((response, declared, body)) ==> {
            &&& response_body_length(response.headers) == Ok::<_, ParseError>(declared)
            &&& ends_with(bytes, body)
        },
{
    if let Ok((response, declared, body)) = parse_response_bytes(bytes) {
        crate::wire::lemma_blank_line_from(bytes, 0);
        assert(bytes.skip(bytes.len() - body.len()) =~= body);
    }
}

/// A response that is completed with `n` bytes has a body of `n` bytes.
pub proof fn lemma_response_completed(response: ResponseView, bytes: Seq<u8>, rest: Seq<u8>)
    ensures
        response_completed(response, bytes, rest) matches ResponseProgress::Done(whole, _) ==> {
            &&& utf8_len(whole.body) == bytes.len()
            &&& whole.headers == response.headers
        },
{
    if valid_utf8(bytes) {
        vstd::utf8::decode_utf8_encode_utf8(bytes);
    }
}

/// A response that is settled keeps its body within the declared length, and
/// the bytes that it holds are the last of the bytes that followed its
/// head.
pub proof fn lemma_response_settled(response: ResponseView, declared: Option<usize>, bytes: Seq<u8>)
    requires
        response_body_length(response.headers) == Ok::<_, ParseError>(declared),
    ensures
        response_settled(response, declared, bytes).within_declared(),
        ends_with(bytes, response_settled(response, declared, bytes).held()),
{
    assert(bytes.skip(0) =~= bytes);
    assert(bytes.skip(bytes.len() as int) =~= Seq::<u8>::empty());
    lemma_response_completed(response, bytes, Seq::empty());
    if let Some(limit) = declared {
        if bytes.len() >= limit {
            lemma_response_completed(response, bytes.take(limit as int), bytes.skip(limit as int));
            let rest = bytes.skip(limit as int);
            assert(bytes.skip(bytes.len() - rest.len()) =~= rest);
        }
    }
}

/// One chunk more keeps the body within the declared length, and the bytes
/// that the state holds stay the last of the bytes that were read.
pub proof fn lemma_response_fed(state: ResponseProgress, chunk: Seq<u8>, read: Seq<u8>)
    requires
        state.within_declared(),
        ends_with(read, state.held()),
    ensures
        response_fed(state, chunk).within_declared(),
        state.reading() ==> ends_with(read + chunk, response_fed(state, chunk).held()),
{
    let all = read + chunk;
    assert(all.skip(all.len() as int) =~= Seq::<u8>::empty());
    match state {
        ResponseProgress::Head(bytes) => {
            let seen = bytes + chunk;
            assert(all.skip(all.len() - seen.len()) =~= seen);
            if chunk.len() == 0 {
                assert(seen =~= bytes);
            }
            if let Ok((response, declared, body)) = parse_response_bytes(seen) {
                lemma_parsed_response(seen);
                lemma_response_settled(response, declared, body);
                let held = response_settled(response, declared, body).held();
                assert(all.skip(all.len() - body.len()) =~= body);
                assert(all.skip(all.len() - held.len()) =~= held);
            }
        },
        ResponseProgress::Body(response, expected, bytes) => {
            let seen = bytes + chunk;
            assert(all.skip(all.len() - seen.len()) =~= seen);
            lemma_response_completed(response, bytes, Seq::empty());
            if chunk.len() > 0 {
                lemma_response_settled(response, expected, seen);
                let held = response_settled(response, expected, seen).held();
                assert(all.skip(all.len() - held.len()) =~= held);
            }
        },
        _ => {},
    }
}

impl ResponseParser {
    /// A parser that has read nothing yet.
    pub fn new() -> (parser: ResponseParser)
        ensures
            parser@ == ResponseProgress::Head(Seq::empty()),
            parser@.within_declared(),
    {
        ResponseParser::Head(Vec::new())
    }

    /// Whether more bytes are wanted. Once this is `false` it stays so.
    pub fn is_reading(&self) -> (reading: bool)
        ensures
            reading == self@.reading(),
    {
        match self {
            ResponseParser::Head(_) => true,
            ResponseParser::Body(_, _, _) => true,
            _ => false,
        }
    }

    /// The response with the text that `bytes` spell as its body.
    fn complete(response: Response, bytes: &[u8], rest: Vec<u8>) -> (parser: ResponseParser)
        ensures
            parser@ == response_completed(response@, bytes@, rest@),
    {
        let mut whole = response;
        match decode(bytes) {
            Some(text) => {
                whole.body = String::from_str(text);
                ResponseParser::Done(whole, rest)
            },
            None => ResponseParser::Failed(ParseError::InvalidBodyEncoding),
        }
    }

    /// Where a response stands whose head is read, when `bytes` have arrived
    /// after the blank line.
    fn settle(response: Response, declared: Option<usize>, bytes: Vec<u8>) -> (parser:
        ResponseParser)
        ensures
            parser@ == response_settled(response@, declared, bytes@),
    {
        let limit: usize = match declared {
            Some(limit) => limit,
            None => {
                return ResponseParser::Body(response, None, bytes);
            },
        };
        let length: usize = bytes.len();
        if length < limit {
            return ResponseParser::Body(response, declared, bytes);
        }
        let body = vstd::slice::slice_subrange(bytes.as_slice(), 0, limit);
        let rest = vstd::slice::slice_to_vec(
            vstd::slice::slice_subrange(bytes.as_slice(), limit, length),
        );
        ResponseParser::complete(response, body, rest)
    }

    /// Where the reading stands once the head's bytes are all there.
    fn head_read(bytes: &[u8]) -> (parser: ResponseParser)
        ensures
            parser@ == response_head_read(bytes@),
    {
        match Response::parse_head(bytes) {
            Ok((response, declared, body)) => ResponseParser::settle(response, declared, body),
            Err(error) => ResponseParser::Failed(error),
        }
    }

    /// Takes the chunk that a read returned; an empty chunk means that the
    /// stream has ended. A parser that started empty never lets a body grow
    /// beyond the length that the headers declare.
    pub fn feed(self, chunk: &[u8]) -> (next: ResponseParser)
        ensures
            next@ == response_fed(self@, chunk@),
            self@.within_declared() ==> next@.within_declared(),
    {
        proof {
            if self@.within_declared() {
                assert(self@.held().skip(0) =~= self@.held());
                lemma_response_fed(self@, chunk@, self@.held());
            }
        }
        match self {
            ResponseParser::Head(mut bytes) => {
                if chunk.len() == 0 {
                    ResponseParser::head_read(bytes.as_slice())
                } else {
                    let ghost before = bytes@;
                    bytes.extend_from_slice(chunk);
                    proof {
                        assert(bytes@ =~= before + chunk@);
                    }
                    if has_blank_line(bytes.as_slice()) {
                        ResponseParser::head_read(bytes.as_slice())
                    } else {
                        ResponseParser::Head(bytes)
                    }
                }
            },
            ResponseParser::Body(response, expected, mut bytes) => {
                if chunk.len() == 0 {
                    ResponseParser::complete(response, bytes.as_slice(), Vec::new())
                } else {
                    let ghost before = bytes@;
                    bytes.extend_from_slice(chunk);
                    proof {
                        assert(bytes@ =~= before + chunk@);
                    }
                    ResponseParser::settle(response, expected, bytes)
                }
            },
            ResponseParser::Done(response, rest) => ResponseParser::Done(response, rest),
            ResponseParser::Failed(error) => ResponseParser::Failed(error),
        }
    }

    /// The result of the reading: the response or the error once the reading
    /// has ended, `None` while more bytes are wanted.
    pub fn finish(self) -> (result: Option<Result<Response, ParseError>>)
        ensures
            match result {
                Some(Ok(response)) => self@.outcome() == Some(Ok::<_, ParseError>(response@)),
                Some(Err(error)) => self@.outcome() == Some(Err::<ResponseView, _>(error)),
                None => self@.outcome().is_none(),
            },
    {
        match self {
            ResponseParser::Done(response, _) => Some(Ok(response)),
            ResponseParser::Failed(error) => Some(Err(error)),
            _ => None,
        }
    }

    /// The bytes that were read after the end of the response: they belong
    /// to whatever follows it on the stream. Empty while the reading goes
    /// on and after a failure.
    pub fn leftover(&self) -> (rest: Vec<u8>)
        ensures
            rest@ == self@.leftover(),
    {
        match self {
            ResponseParser::Done(_, rest) => rest.clone(),
            _ => Vec::new(),
        }
    }
}

impl Response {
    /// Reads one response from `input`, `RESPONSE_CHUNK` bytes at a time: the
    /// head up to the first blank line, then the body until it has the
    /// length that `Content-Length` declares or the input ends; without a
    /// declared length, until the input ends. The
    /// body never has more bytes than declared: what was read beyond them
    /// is given back to `input`. A body cut short by the end of the input
    /// is accepted as it is.
    pub fn parse(input: &mut Cursor) -> (parsed: Result<Response, ParseError>)
        ensures
            match parsed {
                Ok(response) => {
                    &&& response_read(old(input).remaining()).0.outcome() == Some(
                        Ok::<_, ParseError>(response@),
                    )
                    &&& body_within_declared(response@.headers, response@.body)
                },
                Err(error) => response_read(old(input).remaining()).0 == ResponseProgress::Failed(
                    error,
                ),
            },
            final(input).remaining() == response_read(old(input).remaining()).1,
    {
        let mut parser = ResponseParser::new();
        proof {
            let read = input.consumed();
            assert(read.skip(read.len() as int) =~= Seq::<u8>::empty());
        }
        while parser.is_reading()
            invariant
                response_read(old(input).remaining()) == response_run(parser@, input.remaining()),
                parser@.within_declared(),
                ends_with(input.consumed(), parser@.held()),
            decreases input.remaining().len(), parser@.rank(),
        {
            let ghost pending = input.remaining();
            let ghost state = parser@;
            let ghost read = input.consumed();
            let chunk = input.read(RESPONSE_CHUNK);
            parser = parser.feed(chunk.as_slice());
            proof {
                let n = first_chunk_len(pending, RESPONSE_CHUNK as nat) as int;
                if n == 0 {
                    assert(pending.skip(0) =~= pending);
                }
                lemma_response_fed(state, chunk@, read);
            }
        }
        let rest = parser.leftover();
        let ghost read = input.consumed();
        input.unread(rest.len());
        proof {
            assert(read.skip(read.len() - rest@.len()) == rest@);
        }
        match parser.finish() {
            Some(result) => result,
            None => Err(ParseError::Closed),
        }
    }

    /// Appends the wire form of the response, as bytes, to `writable`.
    pub fn write(&self, writable: &mut Vec<u8>)
        ensures
            final(writable)@ == old(writable)@ + vstd::utf8::encode_utf8(response_wire(self@)),
    {
        let wire = self.to_string();
        writable.extend_from_slice(wire.as_str().as_bytes());
    }
}

/// The model of a response builder: what has been set so far.
pub struct ResponseBuilderView {
    pub version: Option<Seq<char>>,
    pub status_code: Option<StatusCode>,
    pub status_message: Option<Seq<char>>,
    pub headers: HeaderList,
    pub body: Option<Seq<char>>,
}

/// The headers of a built response: those that were set, and with them,
/// where the body is not empty and they declare no length, `Content-Length`
/// with the number of bytes of the body.
pub open spec fn built_headers(headers: HeaderList, body: Seq<char>) -> HeaderList {
    if lookup(headers, content_length_name()).is_none() && utf8_len(body) != 0 {
        store(headers, content_length_name(), decimal(utf8_len(body)))
    } else {
        headers
    }
}

/// What a builder in the state `builder` builds: the response with the
/// defaults filled in (version `HTTP/1.1`, the canonical reason phrase as
/// the message, no body, the length of a body declared), or `missing
/// status code` where the status was never set.
pub open spec fn built_response(builder: ResponseBuilderView) -> Result<ResponseView, Seq<char>> {
    match builder.status_code {
        None => Err("missing status code"@),
        Some(status_code) => {
            let body = match builder.body {
                Some(body) => body,
                None => Seq::empty(),
            };
            Ok(
                ResponseView {
                    version: match builder.version {
                        Some(version) => version,
                        None => default_version(),
                    },
                    status_code,
                    status_message: match builder.status_message {
                        Some(message) => message,
                        None => status_code.reason(),
                    },
                    headers: built_headers(builder.headers, body),
                    body,
                },
            )
        },
    }
}

/// Builds a response field by field.
#[derive(Debug)]
pub struct ResponseBuilder {
    version: Option<String>,
    status_code: Option<StatusCode>,
    status_message: Option<String>,
    headers: Headers,
    body: Option<String>,
}

impl View for ResponseBuilder {
    type V = ResponseBuilderView;

    closed spec fn view(&self) -> ResponseBuilderView {
        ResponseBuilderView {
            version: text_of(self.version),
            status_code: self.status_code,
            status_message: text_of(self.status_message),
            headers: self.headers@,
            body: text_of(self.body),
        }
    }
}

impl ResponseBuilder {
    /// A builder with nothing set.
    pub fn new() -> (builder: ResponseBuilder)
        ensures
            builder@ == (ResponseBuilderView {
                version: None,
                status_code: None,
                status_message: None,
                headers: Seq::empty(),
                body: None,
            }),
    {
        ResponseBuilder {
            version: None,
            status_code: None,
            status_message: None,
            headers: Headers::new(),
            body: None,
        }
    }

    /// The response, with the defaults filled in; or `missing status code`
    /// where the status was never set. Where the body is not empty and no
    /// `Content-Length` was set, the header is added with the number of
    /// bytes of the body.
    pub fn build(self) -> (built: Result<Response, &'static str>)
        ensures
            match built {
                Ok(response) => built_response(self@) == Ok::<_, Seq<char>>(response@),
                Err(reason) => built_response(self@) == Err::<ResponseView, _>(reason@),
            },
    {
        let status_code = match self.status_code {
            Some(status_code) => status_code,
            None => {
                return Err("missing status code");
            },
        };
        let mut headers = self.headers;
        let body = match self.body {
            Some(body) => body,
            None => String::new(),
        };
        let length: usize = body.as_str().as_bytes().len();
        if headers.get("Content-Length").is_none() && length != 0 {
            let numeral = decimal_string(length);
            headers.insert("Content-Length", numeral.as_str());
        }
        let version = match self.version {
            Some(version) => version,
            None => String::from_str("HTTP/1.1"),
        };
        let status_message = match self.status_message {
            Some(message) => message,
            None => String::from_str(status_code.get_status_message()),
        };
        Ok(Response { version, status_code, status_message, headers, body })
    }

    /// Sets the protocol version.
    pub fn add_version(self, version: &str) -> (builder: ResponseBuilder)
        ensures
            builder@ == (ResponseBuilderView { version: Some(version@), ..self@ }),
    {
        let mut builder = self;
        builder.version = Some(String::from_str(version));
        builder
    }

    /// Sets the status.
    pub fn add_status_code(self, status_code: StatusCode) -> (builder: ResponseBuilder)
        ensures
            builder@ == (ResponseBuilderView { status_code: Some(status_code), ..self@ }),
    {
        let mut builder = self;
        builder.status_code = Some(status_code);
        builder
    }

    /// Sets the message of the status line.
    pub fn add_status_message(self, status_message: &str) -> (builder: ResponseBuilder)
        ensures
            builder@ == (ResponseBuilderView { status_message: Some(status_message@), ..self@ }),
    {
        let mut builder = self;
        builder.status_message = Some(String::from_str(status_message));
        builder
    }

    /// Replaces the headers set so far by `headers`.
    pub fn add_headers(self, headers: Headers) -> (builder: ResponseBuilder)
        ensures
            builder@ == (ResponseBuilderView { headers: headers@, ..self@ }),
    {
        let mut builder = self;
        builder.headers = headers;
        builder
    }

    /// Stores `value` under `key` in the headers set so far.
    pub fn add_header(self, key: &str, value: &str) -> (builder: ResponseBuilder)
        ensures
            builder@ == (ResponseBuilderView {
                headers: store(self@.headers, key@, value@),
                ..self@
            }),
    {
        let mut builder = self;
        builder.headers.insert(key, value);
        builder
    }

    /// Sets the body.
    pub fn add_body(self, body: &str) -> (builder: ResponseBuilder)
        ensures
            builder@ == (ResponseBuilderView { body: Some(body@), ..self@ }),
    {
        let mut builder = self;
        builder.body = Some(String::from_str(body));
        builder
    }
}

/// A built response declares the length of its body: where the body is
/// not empty the response has a `Content-Length`, and where the builder
/// was given none, the header spells the number of bytes of the body.
pub proof fn law_built_response_declares_length(builder: ResponseBuilderView)
    requires
        built_response(builder).is_ok(),
    ensures
        built_response(builder) matches Ok(response) && {
            &&& utf8_len(response.body) != 0 ==> lookup(
                response.headers,
                content_length_name(),
            ).is_some()
            &&& utf8_len(response.body) != 0 && lookup(
                builder.headers,
                content_length_name(),
            ).is_none() ==> lookup(response.headers, content_length_name()) == Some(
                decimal(utf8_len(response.body)),
            )
            &&& utf8_len(response.body) != 0 && utf8_len(response.body) <= usize::MAX && lookup(
                builder.headers,
                content_length_name(),
            ).is_none() ==> declared_length(response.headers) == Declared::Length(
                utf8_len(response.body) as usize,
            )
        },
{
    let body = match builder.body {
        Some(body) => body,
        None => Seq::empty(),
    };
    crate::headers::law_lookup_ignores_case(
        builder.headers,
        content_length_name(),
        decimal(utf8_len(body)),
        content_length_name(),
    );
    crate::text::lemma_decimal_parses(utf8_len(body));
}

} // verus!
