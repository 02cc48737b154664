//! What the request parser and the response parser share: the errors, the
//! declared body length, the search for the blank line that ends a header
//! block, UTF-8 decoding, and an in-memory byte source.

use crate::headers::{lookup, HeaderList, Headers};
use crate::status::StatusCode;
use crate::text::{chars_of, parse_unsigned, read_unsigned};
use vstd::prelude::*;
use vstd::string::StringSliceAdditionalSpecFns;
use vstd::utf8::{decode_utf8, encode_utf8, valid_utf8};

verus! {

/// Why a message could not be read.
#[derive(Debug, Clone, Copy, PartialEq, Eq, Structural)]
pub enum ParseError {
    /// The stream ended before a single byte arrived.
    Closed,
    /// The source failed while the head was being read.
    ReadFailed,
    /// The head is not UTF-8.
    InvalidEncoding,
    /// A request has no blank line after its head, no line break after the
    /// request line, fewer than three words on the request line, or a
    /// header line without a colon.
    MalformedRequest,
    /// The method is none of those that the message model knows.
    MethodNotAllowed,
    /// A response has no blank line after its head, no line break after the
    /// status line, fewer than two words on the status line, or a header
    /// line without a colon.
    InvalidResponse,
    /// `Content-Length` is there and spells no length.
    MalformedLength,
    /// The source failed while the body was being read.
    BodyReadFailed,
    /// The bytes of the body are not UTF-8.
    InvalidBodyEncoding,
}

impl ParseError {
    /// The status with which a proxy answers a request that failed this
    /// way; none where the peer left before it sent anything.
    pub open spec fn status(self) -> Option<StatusCode> {
        match self {
            ParseError::Closed => None,
            ParseError::ReadFailed => Some(StatusCode::InternalServerError),
            ParseError::MethodNotAllowed => Some(StatusCode::MethodNotAllowed),
            _ => Some(StatusCode::BadRequest),
        }
    }

    /// What went wrong, in words.
    pub open spec fn description(self) -> Seq<char> {
        match self {
            ParseError::Closed => "stream closed"@,
            ParseError::ReadFailed => "read failed"@,
            ParseError::InvalidEncoding => "invalid encoding"@,
            ParseError::MalformedRequest => "malformed request"@,
            ParseError::MethodNotAllowed => "method not allowed"@,
            ParseError::InvalidResponse => "invalid response"@,
            ParseError::MalformedLength => "malformed length"@,
            ParseError::BodyReadFailed => "read failed"@,
            ParseError::InvalidBodyEncoding => "invalid body encoding"@,
        }
    }

    /// The status with which a proxy answers a request that failed this
    /// way; none where the peer left before it sent anything.
    pub fn status_code(&self) -> (status: Option<StatusCode>)
        ensures
            status == self.status(),
    {
        match self {
            ParseError::Closed => None,
            ParseError::ReadFailed => Some(StatusCode::InternalServerError),
            ParseError::MethodNotAllowed => Some(StatusCode::MethodNotAllowed),
            _ => Some(StatusCode::BadRequest),
        }
    }

    /// What went wrong, in words.
    pub fn message(&self) -> (text: &'static str)
        ensures
            text@ == self.description(),
    {
        match self {
            ParseError::Closed => "stream closed",
            ParseError::ReadFailed => "read failed",
            ParseError::InvalidEncoding => "invalid encoding",
            ParseError::MalformedRequest => "malformed request",
            ParseError::MethodNotAllowed => "method not allowed",
            ParseError::InvalidResponse => "invalid response",
            ParseError::MalformedLength => "malformed length",
            ParseError::BodyReadFailed => "read failed",
            ParseError::InvalidBodyEncoding => "invalid body encoding",
        }
    }
}

/// The body length that a header collection declares.
#[derive(Debug, Clone, Copy, PartialEq, Eq, Structural)]
pub enum Declared {
    /// There is no `Content-Length`.
    Absent,
    /// `Content-Length` spells this many bytes.
    Length(usize),
    /// `Content-Length` is there, and its value is no decimal number that
    /// fits the machine word.
    Unreadable,
}

/// The name of the header that declares the body length.
pub open spec fn content_length_name() -> Seq<char> {
    "Content-Length"@
}

/// The body length that `list` declares.
pub open spec fn declared_length(list: HeaderList) -> Declared {
    match lookup(list, content_length_name()) {
        None => Declared::Absent,
        Some(value) => match parse_unsigned(value) {
            Some(n) => if n <= usize::MAX {
                Declared::Length(n as usize)
            } else {
                Declared::Unreadable
            },
            None => Declared::Unreadable,
        },
    }
}

/// The number of bytes that `text` takes in UTF-8.
pub open spec fn utf8_len(text: Seq<char>) -> nat {
    encode_utf8(text).len()
}

/// The body length that `headers` declares.
pub fn content_length(headers: &Headers) -> (declared: Declared)
    ensures
        declared == declared_length(headers@),
{
    match headers.get("Content-Length") {
        None => Declared::Absent,
        Some(value) => {
            let chars = chars_of(value.as_str());
            match read_unsigned(chars.as_slice()) {
                Some(n) => Declared::Length(n),
                None => Declared::Unreadable,
            }
        },
    }
}

/// The four bytes CR LF CR LF stand in `bytes` at index `i`.
pub open spec fn blank_line_at(bytes: Seq<u8>, i: int) -> bool {
    &&& 0 <= i
    &&& i + 4 <= bytes.len()
    &&& bytes[i] == 13
    &&& bytes[i + 1] == 10
    &&& bytes[i + 2] == 13
    &&& bytes[i + 3] == 10
}

/// `bytes` holds, somewhere, the blank line that ends a header block.
pub open spec fn holds_blank_line(bytes: Seq<u8>) -> bool {
    exists|i: int| blank_line_at(bytes, i)
}

/// Whether `bytes` holds, anywhere, the blank line that ends a header
/// block. The whole of `bytes` is searched.
pub fn has_blank_line(bytes: &[u8]) -> (found: bool)
    ensures
        found == holds_blank_line(bytes@),
{
    let length: usize = bytes.len();
    if length < 4 {
        return false;
    }
    let last: usize = length - 4;
    let mut i: usize = 0;
    while i <= last
        invariant
            length == bytes@.len(),
            last + 4 == length,
            i <= last + 1,
            forall|j: int| 0 <= j < i ==> !blank_line_at(bytes@, j),
        decreases length - i,
    {
        if bytes[i] == 13 && bytes[i + 1] == 10 && bytes[i + 2] == 13 && bytes[i + 3] == 10 {
            assert(blank_line_at(bytes@, i as int));
            return true;
        }
        i = i + 1;
    }
    false
}

/// The text that `bytes` spell in UTF-8, if they spell one.
pub open spec fn decoded(bytes: Seq<u8>) -> Option<Seq<char>> {
    if valid_utf8(bytes) {
        Some(decode_utf8(bytes))
    } else {
        None
    }
}

/// `std::str::from_utf8`: where `bytes` are valid UTF-8, the string slice
/// over these same bytes; `None` where they are not.
#[verifier::external_body]
fn from_utf8(bytes: &[u8]) -> (text: Option<&str>)
    ensures
        match text {
            Some(s) => valid_utf8(bytes@) && s.spec_bytes() == bytes@,
            None => !valid_utf8(bytes@),
        },
{
    std::str::from_utf8(bytes).ok()
}

/// The text that `bytes` spell in UTF-8, if they spell one.
pub fn decode(bytes: &[u8]) -> (text: Option<&str>)
    ensures
        match text {
            Some(s) => decoded(bytes@) == Some(s@),
            None => decoded(bytes@).is_none(),
        },
{
    let text = from_utf8(bytes);
    proof {
        if let Some(s) = text {
            vstd::utf8::encode_utf8_decode_utf8(s@);
        }
    }
    text
}

/// The bytes of two texts, one after the other, are the bytes of the texts
/// one after the other.
pub proof fn lemma_encode_concat(a: Seq<char>, b: Seq<char>)
    ensures
        encode_utf8(a + b) == encode_utf8(a) + encode_utf8(b),
    decreases a.len(),
{
    if a.len() == 0 {
        assert(a + b =~= b);
        assert(encode_utf8(a) + encode_utf8(b) =~= encode_utf8(b));
    } else {
        assert((a + b).drop_first() =~= a.drop_first() + b);
        lemma_encode_concat(a.drop_first(), b);
        assert((a + b)[0] == a[0]);
        assert(encode_utf8(a + b) =~= encode_utf8(a) + encode_utf8(b));
    }
}

/// `whole` ends with `tail`.
pub open spec fn ends_with(whole: Seq<u8>, tail: Seq<u8>) -> bool {
    &&& tail.len() <= whole.len()
    &&& whole.skip(whole.len() - tail.len()) == tail
}

/// An in-memory byte source, read front to back.
#[derive(Debug)]
pub struct Cursor {
    data: Vec<u8>,
    position: usize,
}

impl Cursor {
    #[verifier::type_invariant]
    spec fn in_bounds(self) -> bool {
        self.position <= self.data@.len()
    }

    /// The bytes that have not been read yet.
    pub closed spec fn remaining(self) -> Seq<u8> {
        self.data@.subrange(self.position as int, self.data@.len() as int)
    }

    /// The bytes that have been read.
    pub closed spec fn consumed(self) -> Seq<u8> {
        self.data@.subrange(0, self.position as int)
    }

    /// A source that yields `data`.
    pub fn new(data: Vec<u8>) -> (cursor: Cursor)
        ensures
            cursor.remaining() == data@,
            cursor.consumed() == Seq::<u8>::empty(),
    {
        Cursor { data, position: 0 }
    }

    /// Reads the next bytes, at most `limit` of them. An empty result means
    /// that the source is exhausted (or that `limit` is zero).
    pub fn read(&mut self, limit: usize) -> (chunk: Vec<u8>)
        ensures
            chunk@ == old(self).remaining().take(
                first_chunk_len(old(self).remaining(), limit as nat) as int,
            ),
            final(self).remaining() == old(self).remaining().skip(chunk@.len() as int),
            final(self).consumed() == old(self).consumed() + chunk@,
    {
        proof {
            use_type_invariant(&*self);
        }
        let available: usize = self.data.len() - self.position;
        let count: usize = if limit < available {
            limit
        } else {
            available
        };
        let start: usize = self.position;
        let chunk = vstd::slice::slice_to_vec(
            vstd::slice::slice_subrange(self.data.as_slice(), start, start + count),
        );
        self.position = start + count;
        proof {
            assert(self.consumed() =~= old(self).consumed() + chunk@);
        }
        chunk
    }

    /// Gives back the last `count` bytes that were read, or all that were
    /// read where they are fewer: they will be read again.
    pub fn unread(&mut self, count: usize)
        ensures
            ({
                let read = old(self).consumed();
                let keep = if count <= read.len() {
                    read.len() - count
                } else {
                    0
                };
                &&& final(self).consumed() == read.take(keep)
                &&& final(self).remaining() == read.skip(keep) + old(self).remaining()
            }),
    {
        proof {
            use_type_invariant(&*self);
        }
        let keep: usize = if count <= self.position {
            self.position - count
        } else {
            0
        };
        self.position = keep;
        proof {
            assert(self.consumed() =~= old(self).consumed().take(keep as int));
            assert(self.remaining() =~= old(self).consumed().skip(keep as int) + old(
                self,
            ).remaining());
        }
    }
}

/// The length of the chunk that a read of at most `limit` bytes takes from
/// `pending`.
pub open spec fn first_chunk_len(pending: Seq<u8>, limit: nat) -> nat {
    if limit < pending.len() {
        limit
    } else {
        pending.len()
    }
}

/// The first index at or after `i` at which a blank line stands in
/// `bytes`.
pub open spec fn blank_line_from(bytes: Seq<u8>, i: int) -> Option<int>
    decreases bytes.len() - i,
{
    if i < 0 || i + 4 > bytes.len() {
        None
    } else if blank_line_at(bytes, i) {
        Some(i)
    } else {
        blank_line_from(bytes, i + 1)
    }
}

/// The index of the first blank line in `bytes`.
pub open spec fn first_blank_line(bytes: Seq<u8>) -> Option<int> {
    blank_line_from(bytes, 0)
}

/// `blank_line_from` returns the least index at or after `i` at which a
/// blank line stands, and `None` only when there is none.
pub proof fn lemma_blank_line_from(bytes: Seq<u8>, i: int)
    requires
        0 <= i,
    ensures
        match blank_line_from(bytes, i) {
            Some(k) => i <= k && blank_line_at(bytes, k) && forall|j: int|
                i <= j < k ==> !blank_line_at(bytes, j),
            None => forall|j: int| i <= j ==> !blank_line_at(bytes, j),
        },
    decreases bytes.len() - i,
{
    if i + 4 <= bytes.len() && !blank_line_at(bytes, i) {
        lemma_blank_line_from(bytes, i + 1);
    }
}

/// Valid UTF-8 that starts with an ASCII byte spells that character and
/// then what the bytes after it spell.
pub proof fn lemma_ascii_first(b: Seq<u8>)
    requires
        valid_utf8(b),
        b.len() > 0,
        b[0] <= 0x7f,
    ensures
        valid_utf8(b.skip(1)),
        decode_utf8(b) == seq![b[0] as char] + decode_utf8(b.skip(1)),
{
    let first = b[0];
    assert(first & 0x7f == first) by (bit_vector)
        requires
            first <= 0x7f,
    ;
    assert(vstd::utf8::pop_first_scalar(b) =~= b.skip(1));
}

/// Valid UTF-8 that starts with a blank line spells a text that starts
/// with one.
pub proof fn lemma_blank_line_is_spelled(b: Seq<u8>)
    requires
        valid_utf8(b),
        blank_line_at(b, 0),
    ensures
        crate::text::matches_at(decode_utf8(b), crate::text::delimiter(), 0),
{
    let r = decode_utf8(b);
    lemma_ascii_first(b);
    let b1 = b.skip(1);
    lemma_ascii_first(b1);
    let b2 = b1.skip(1);
    lemma_ascii_first(b2);
    let b3 = b2.skip(1);
    lemma_ascii_first(b3);
    assert(r.len() >= 4);
    assert(r[0] == '\r' && r[1] == '\n' && r[2] == '\r' && r[3] == '\n');
    assert(r.subrange(0, 4) =~= crate::text::delimiter());
}

/// A blank line in the bytes of a text is a blank line of the text, at the
/// character where the bytes before it end.
pub proof fn lemma_blank_line_of_bytes(text: Seq<char>, j: int) -> (i: int)
    requires
        blank_line_at(encode_utf8(text), j),
    ensures
        0 <= i <= text.len(),
        crate::text::matches_at(text, crate::text::delimiter(), i),
        utf8_len(text.take(i)) == j,
{
    let bytes = encode_utf8(text);
    vstd::utf8::encode_utf8_valid_utf8(text);
    vstd::utf8::encode_utf8_decode_utf8(text);
    vstd::utf8::is_char_boundary_iff_not_is_continuation_byte(bytes, j);
    vstd::utf8::valid_utf8_split(bytes, j);
    vstd::utf8::decode_utf8_split(bytes, j);
    let first = bytes.subrange(0, j);
    let rest = bytes.subrange(j, bytes.len() as int);
    let a = decode_utf8(first);
    let r = decode_utf8(rest);
    assert(text == a + r);
    vstd::utf8::decode_utf8_encode_utf8(first);
    lemma_blank_line_is_spelled(rest);
    let i = a.len() as int;
    assert(text.take(i) =~= a);
    assert(text.subrange(i, i + 4) =~= r.subrange(0, 4));
    i
}

/// The bytes of a text up to its first blank line: a blank line stands in
/// the text's bytes where the bytes of the text before it end, and the
/// bytes split there as the text does.
pub proof fn lemma_delimiter_bytes(text: Seq<char>, d: int)
    requires
        crate::text::matches_at(text, crate::text::delimiter(), d),
    ensures
        blank_line_at(encode_utf8(text), utf8_len(text.take(d)) as int),
        encode_utf8(text) == encode_utf8(text.take(d + 4)) + encode_utf8(text.skip(d + 4)),
        utf8_len(text.take(d + 4)) == utf8_len(text.take(d)) + 4,
{
    let mark = crate::text::delimiter();
    let bytes = encode_utf8(text);
    let before = text.take(d);
    let after = text.skip(d + 4);
    let p = utf8_len(before) as int;
    assert(mark.len() == 4);
    assert(text.subrange(d, d + 4) == mark);
    assert(text =~= before + mark + after);
    assert(text.take(d + 4) =~= before + mark);
    lemma_encode_concat(before + mark, after);
    lemma_encode_concat(before, mark);
    vstd::utf8::is_ascii_chars_encode_utf8(mark);
    let mark_bytes = encode_utf8(mark);
    assert(mark_bytes[0] == 13 && mark_bytes[1] == 10 && mark_bytes[2] == 13 && mark_bytes[3] == 10);
    assert(bytes[p] == mark_bytes[0]);
    assert(bytes[p + 1] == mark_bytes[1]);
    assert(bytes[p + 2] == mark_bytes[2]);
    assert(bytes[p + 3] == mark_bytes[3]);
}

/// A longer start of a text has no fewer bytes.
pub proof fn lemma_longer_start(text: Seq<char>, i: int, d: int)
    requires
        0 <= d <= i <= text.len(),
    ensures
        utf8_len(text.take(d)) <= utf8_len(text.take(i)),
{
    assert(text.take(i) =~= text.take(d) + text.subrange(d, i));
    lemma_encode_concat(text.take(d), text.subrange(d, i));
}

/// A text's first blank line is where its bytes' first blank line is: at
/// the byte where the text before it ends.
pub proof fn lemma_delimiter_in_bytes(text: Seq<char>, d: int)
    requires
        crate::text::find(text, crate::text::delimiter()) == Some(d),
    ensures
        first_blank_line(encode_utf8(text)) == Some(utf8_len(text.take(d)) as int),
        encode_utf8(text) == encode_utf8(text.take(d + 4)) + encode_utf8(text.skip(d + 4)),
        utf8_len(text.take(d + 4)) == utf8_len(text.take(d)) + 4,
{
    let bytes = encode_utf8(text);
    let p = utf8_len(text.take(d)) as int;
    crate::text::lemma_find_from(text, crate::text::delimiter(), 0);
    lemma_delimiter_bytes(text, d);
    assert forall|j: int| 0 <= j < p implies !blank_line_at(bytes, j) by {
        if blank_line_at(bytes, j) {
            let i = lemma_blank_line_of_bytes(text, j);
            if i >= d {
                lemma_longer_start(text, i, d);
            }
        }
    }
    lemma_blank_line_from(bytes, 0);
}

/// The index of the first blank line in `bytes`.
pub fn find_blank_line(bytes: &[u8]) -> (found: Option<usize>)
    ensures
        match found {
            Some(i) => first_blank_line(bytes@) == Some(i as int) && i + 4 <= bytes@.len(),
            None => first_blank_line(bytes@).is_none(),
        },
{
    let length: usize = bytes.len();
    if length < 4 {
        return None;
    }
    let last: usize = length - 4;
    let mut i: usize = 0;
    while i <= last
        invariant
            length == bytes@.len(),
            last + 4 == length,
            i <= last + 1,
            first_blank_line(bytes@) == blank_line_from(bytes@, i as int),
        decreases length - i,
    {
        if bytes[i] == 13 && bytes[i + 1] == 10 && bytes[i + 2] == 13 && bytes[i + 3] == 10 {
            return Some(i);
        }
        i = i + 1;
    }
    None
}

/// Bytes hold a blank line just when they have a first one.
pub proof fn lemma_holds_blank_line(bytes: Seq<u8>)
    ensures
        holds_blank_line(bytes) == first_blank_line(bytes).is_some(),
{
    lemma_blank_line_from(bytes, 0);
    if holds_blank_line(bytes) {
        let i = choose|i: int| blank_line_at(bytes, i);
        assert(blank_line_at(bytes, i));
    }
}

/// The first blank line of bytes is the first blank line of every start of
/// them that reaches its end, and of them followed by more; a start that
/// does not reach its end holds no blank line.
pub proof fn lemma_first_blank_line_stays(bytes: Seq<u8>, p: int, m: int, more: Seq<u8>)
    requires
        first_blank_line(bytes) == Some(p),
        0 <= m <= bytes.len(),
    ensures
        m >= p + 4 ==> first_blank_line(bytes.take(m)) == Some(p),
        m < p + 4 ==> first_blank_line(bytes.take(m)).is_none(),
        first_blank_line(bytes + more) == Some(p),
{
    lemma_blank_line_from(bytes, 0);
    let start = bytes.take(m);
    let longer = bytes + more;
    lemma_blank_line_from(start, 0);
    lemma_blank_line_from(longer, 0);
    assert forall|j: int| blank_line_at(start, j) implies blank_line_at(bytes, j) by {}
    assert forall|j: int| 0 <= j < p implies !blank_line_at(longer, j) by {
        if blank_line_at(longer, j) {
            assert(blank_line_at(bytes, j));
        }
    }
    assert(blank_line_at(longer, p));
    if m >= p + 4 {
        assert(blank_line_at(start, p));
    }
}

} // verus!
