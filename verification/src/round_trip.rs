//! Round trips: a message that is fit for the wire is read back from its
//! wire form as it was; a stream short enough for one read is read as its
//! bytes are read at once; and what follows a message on the stream is
//! handed back.

use crate::headers::{
    distinct_names, lemma_position_from, name_separator, parse_block,
    parse_block_from, parse_line, position, serialize, store, HeaderList,
};
use crate::request::{
    body_within_declared, law_method_token_reads_back, parse_request_bytes, parse_request_line,
    parse_request_text, request_body_length, request_completed, request_fed, request_read,
    request_run, request_settled, request_wire, RequestProgress, RequestView, REQUEST_CHUNK,
};
use crate::response::{
    join_words, parse_response_bytes, parse_response_text, parse_status_line,
    response_body_length, response_completed, response_fed, response_read, response_run,
    response_settled, response_wire, ResponseProgress, ResponseView, RESPONSE_CHUNK,
};
use crate::status::law_numeral_reads_back;
use crate::text::{
    crlf, decimal, delimiter, find, find_from, is_one_line, is_trimmed, is_whitespace, is_word,
    lemma_decimal_parses, lemma_find_from, lemma_find_from_after_prefix, lemma_find_from_is,
    lemma_first_line, lemma_skip_whitespace, lemma_skip_word, lemma_tokens_of_word,
    lemma_tokens_of_word_and_rest, lemma_trim_of_trimmed, matches_at, skip_whitespace, skip_word,
    tokens, tokens_from,
};
use crate::wire::{
    declared_length, first_blank_line, lemma_delimiter_in_bytes, lemma_first_blank_line_stays,
    lemma_holds_blank_line, utf8_len, ParseError,
};
use vstd::prelude::*;
use vstd::utf8::encode_utf8;

verus! {

/// A header that is fit for the wire: its name holds no colon, neither name
/// nor value holds a carriage return or a line feed, and the value neither
/// starts nor ends with whitespace.
pub open spec fn entry_fits_wire(entry: (Seq<char>, Seq<char>)) -> bool {
    &&& is_one_line(entry.0)
    &&& forall|i: int| 0 <= i < entry.0.len() ==> (#[trigger] entry.0[i]) != ':'
    &&& is_one_line(entry.1)
    &&& is_trimmed(entry.1)
}

/// Headers that are fit for the wire of a message that is to be read back:
/// there is at least one, each is fit for the wire, and no name comes
/// twice.
pub open spec fn headers_fit_wire(list: HeaderList) -> bool {
    &&& list.len() > 0
    &&& distinct_names(list)
    &&& forall|i: int| 0 <= i < list.len() ==> entry_fits_wire(#[trigger] list[i])
}

/// One header without its line terminator.
pub open spec fn entry_text(entry: (Seq<char>, Seq<char>)) -> Seq<char> {
    entry.0 + name_separator() + entry.1
}

/// The header block of a collection: its lines with a line terminator
/// between each two, and none at the end.
pub open spec fn block_of(list: HeaderList) -> Seq<char>
    decreases list.len(),
{
    if list.len() == 0 {
        Seq::empty()
    } else if list.len() == 1 {
        entry_text(list[0])
    } else {
        entry_text(list[0]) + crlf() + block_of(list.drop_first())
    }
}

/// The collection after the entries of `list` are stored into `into`, in
/// order.
pub open spec fn store_all(into: HeaderList, list: HeaderList) -> HeaderList
    decreases list.len(),
{
    if list.len() == 0 {
        into
    } else {
        store_all(store(into, list[0].0, list[0].1), list.drop_first())
    }
}

/// Every carriage return in `s` has two characters after it, the second of
/// which is no carriage return: no line of `s` is empty.
pub open spec fn has_no_empty_line(s: Seq<char>) -> bool {
    forall|j: int|
        0 <= j < s.len() && (#[trigger] s[j]) == '\r' ==> j + 2 < s.len() && s[j + 2] != '\r'
}

/// The wire form of a collection is its block and a line terminator.
pub proof fn lemma_serialize_is_block(list: HeaderList)
    requires
        list.len() > 0,
    ensures
        serialize(list) == block_of(list) + crlf(),
    decreases list.len(),
{
    let rest = list.drop_first();
    if list.len() == 1 {
        assert(serialize(rest) =~= Seq::<char>::empty());
        assert(serialize(list) =~= block_of(list) + crlf());
    } else {
        lemma_serialize_is_block(rest);
        assert(serialize(list) =~= block_of(list) + crlf());
    }
}

/// A header fit for the wire is one line that starts with no carriage
/// return, and it is read back from its text.
pub proof fn lemma_entry_reads_back(entry: (Seq<char>, Seq<char>))
    requires
        entry_fits_wire(entry),
    ensures
        parse_line(entry_text(entry)) == Some(entry),
        is_one_line(entry_text(entry)),
        entry_text(entry).len() >= 2,
        entry_text(entry)[0] != '\r',
{
    let line = entry_text(entry);
    let n = entry.0.len() as int;
    let colon = seq![':'];
    assert(name_separator().len() == 2);
    assert(line.len() == n + 2 + entry.1.len());
    assert forall|i: int| 0 <= i < line.len() implies (#[trigger] line[i]) != '\r' && line[i]
        != '\n' by {
        if i < n {
            assert(line[i] == entry.0[i]);
        } else if i < n + 2 {
            assert(line[i] == name_separator()[i - n]);
        } else {
            assert(line[i] == entry.1[i - n - 2]);
        }
    }
    if n > 0 {
        assert(line[0] == entry.0[0]);
    } else {
        assert(line[0] == name_separator()[0]);
    }
    assert(line[n] == name_separator()[0]);
    assert(line.subrange(n, n + 1) =~= colon);
    assert forall|j: int| 0 <= j < n implies !matches_at(line, colon, j) by {
        if j + 1 <= line.len() {
            assert(line.subrange(j, j + 1)[0] == line[j]);
            assert(line[j] == entry.0[j]);
        }
    }
    lemma_find_from_is(line, colon, 0, n);
    assert(line.subrange(0, n) =~= entry.0);
    assert(line.subrange(n + 1, line.len() as int) =~= seq![' '] + entry.1);
    lemma_trim_of_trimmed(entry.1);
}

/// Reading a block that follows a prefix, from the prefix's end on, is
/// reading the block alone.
pub proof fn lemma_parse_block_after_prefix(
    p: Seq<char>,
    r: Seq<char>,
    i: int,
    list: HeaderList,
)
    requires
        0 <= i <= r.len(),
    ensures
        parse_block_from(p + r, p.len() + i, list) == parse_block_from(r, i, list),
    decreases r.len() - i,
{
    let s = p + r;
    let n = p.len() as int;
    lemma_find_from_after_prefix(p, r, crlf(), i);
    lemma_find_from(r, crlf(), i);
    assert(crlf().len() == 2);
    match find_from(r, crlf(), i) {
        Some(end) => {
            assert(s.subrange(n + i, n + end) =~= r.subrange(i, end));
            match parse_line(r.subrange(i, end)) {
                Some((name, value)) => {
                    lemma_parse_block_after_prefix(p, r, end + 2, store(list, name, value));
                },
                None => {},
            }
        },
        None => {
            assert(s.subrange(n + i, s.len() as int) =~= r.subrange(i, r.len() as int));
        },
    }
}

/// The block of headers fit for the wire is read as these headers, stored
/// in order.
pub proof fn lemma_block_reads_back(list: HeaderList, into: HeaderList)
    requires
        list.len() > 0,
        forall|i: int| 0 <= i < list.len() ==> entry_fits_wire(#[trigger] list[i]),
    ensures
        parse_block_from(block_of(list), 0, into) == Some(store_all(into, list)),
    decreases list.len(),
{
    let entry = list[0];
    let line = entry_text(entry);
    let rest = list.drop_first();
    let stored = store(into, entry.0, entry.1);
    lemma_entry_reads_back(entry);
    if list.len() == 1 {
        lemma_first_line(line, Seq::empty());
        assert(line.subrange(0, line.len() as int) =~= line);
        assert(store_all(stored, rest) == stored);
    } else {
        let tail = block_of(rest);
        let block = block_of(list);
        assert forall|i: int| 0 <= i < rest.len() implies entry_fits_wire(#[trigger] rest[i]) by {
            assert(rest[i] == list[i + 1]);
        }
        lemma_first_line(line, tail);
        assert(crlf().len() == 2);
        assert(block.subrange(0, line.len() as int) =~= line);
        let p = line + crlf();
        assert(p + tail =~= block);
        lemma_parse_block_after_prefix(p, tail, 0, stored);
        lemma_block_reads_back(rest, stored);
    }
}

/// Storing entries with names that are new and differ from each other adds
/// them at the end, in order.
pub proof fn lemma_store_all_appends(into: HeaderList, list: HeaderList)
    requires
        distinct_names(into + list),
    ensures
        store_all(into, list) == into + list,
    decreases list.len(),
{
    if list.len() == 0 {
        assert(into + list =~= into);
    } else {
        let all = into + list;
        let entry = list[0];
        let rest = list.drop_first();
        lemma_position_from(into, entry.0, 0);
        assert(all[into.len() as int] == entry);
        assert forall|j: int| 0 <= j < into.len() implies !crate::text::eq_ignore_case(
            (#[trigger] into[j]).0,
            entry.0,
        ) by {
            assert(all[j] == into[j]);
        }
        assert(position(into, entry.0).is_none());
        let stored = store(into, entry.0, entry.1);
        assert(stored + rest =~= all);
        lemma_store_all_appends(stored, rest);
    }
}

/// Headers fit for the wire are read back from their block as they were.
pub proof fn law_headers_round_trip(list: HeaderList)
    requires
        headers_fit_wire(list),
    ensures
        parse_block(block_of(list)) == Some(list),
        serialize(list) == block_of(list) + crlf(),
{
    lemma_block_reads_back(list, Seq::empty());
    assert(Seq::<(Seq<char>, Seq<char>)>::empty() + list =~= list);
    lemma_store_all_appends(Seq::empty(), list);
    lemma_serialize_is_block(list);
}

/// The block of headers fit for the wire is not empty, starts with no
/// carriage return and has no empty line.
pub proof fn lemma_block_has_no_empty_line(list: HeaderList)
    requires
        list.len() > 0,
        forall|i: int| 0 <= i < list.len() ==> entry_fits_wire(#[trigger] list[i]),
    ensures
        block_of(list).len() > 0,
        block_of(list)[0] != '\r',
        has_no_empty_line(block_of(list)),
    decreases list.len(),
{
    let line = entry_text(list[0]);
    lemma_entry_reads_back(list[0]);
    if list.len() > 1 {
        let rest = list.drop_first();
        assert forall|i: int| 0 <= i < rest.len() implies entry_fits_wire(#[trigger] rest[i]) by {
            assert(rest[i] == list[i + 1]);
        }
        lemma_block_has_no_empty_line(rest);
        lemma_lines_have_no_empty_line(line, block_of(rest));
    }
}

/// A line, a line terminator and a text without an empty line that starts
/// with no carriage return make a text without an empty line.
pub proof fn lemma_lines_have_no_empty_line(line: Seq<char>, rest: Seq<char>)
    requires
        is_one_line(line),
        rest.len() > 0,
        rest[0] != '\r',
        has_no_empty_line(rest),
    ensures
        has_no_empty_line(line + crlf() + rest),
{
    let s = line + crlf() + rest;
    let n = line.len() as int;
    assert(crlf().len() == 2);
    assert forall|j: int| 0 <= j < s.len() && (#[trigger] s[j]) == '\r' implies j + 2 < s.len()
        && s[j + 2] != '\r' by {
        if j < n {
            assert(s[j] == line[j]);
        } else if j == n {
            assert(s[j + 2] == rest[0]);
        } else if j == n + 1 {
            assert(s[j] == crlf()[1]);
        } else {
            assert(s[j] == rest[j - n - 2]);
            assert(s[j + 2] == rest[j - n]);
        }
    }
}

/// In a head without an empty line, followed by the blank line and a body,
/// the first blank line is the one that follows the head.
pub proof fn lemma_blank_line_is_found(head: Seq<char>, body: Seq<char>)
    requires
        has_no_empty_line(head),
    ensures
        find(head + delimiter() + body, delimiter()) == Some(head.len() as int),
{
    let s = head + delimiter() + body;
    let n = head.len() as int;
    assert(delimiter().len() == 4);
    assert(s.subrange(n, n + 4) =~= delimiter());
    assert forall|j: int| 0 <= j < n implies !matches_at(s, delimiter(), j) by {
        if j + 4 <= s.len() && s.subrange(j, j + 4) == delimiter() {
            assert(s.subrange(j, j + 4)[0] == s[j]);
            assert(s.subrange(j, j + 4)[2] == s[j + 2]);
            assert(s[j] == head[j]);
            assert(s[j + 2] == head[j + 2]);
        }
    }
    lemma_find_from_is(s, delimiter(), 0, n);
}

/// A word holds neither a carriage return nor a line feed.
pub proof fn lemma_word_is_one_line(w: Seq<char>)
    requires
        is_word(w),
    ensures
        is_one_line(w),
{
    assert forall|i: int| 0 <= i < w.len() implies (#[trigger] w[i]) != '\r' && w[i] != '\n' by {
        assert(!is_whitespace(w[i]));
    }
}

/// Two texts without line breaks, with a space between them, make a text
/// without line breaks.
pub proof fn lemma_spaced_is_one_line(a: Seq<char>, b: Seq<char>)
    requires
        is_one_line(a),
        is_one_line(b),
    ensures
        is_one_line(a + seq![' '] + b),
{
    let s = a + seq![' '] + b;
    assert forall|i: int| 0 <= i < s.len() implies (#[trigger] s[i]) != '\r' && s[i] != '\n' by {
        if i < a.len() {
            assert(s[i] == a[i]);
        } else if i == a.len() {
            assert(s[i] == ' ');
        } else {
            assert(s[i] == b[i - a.len() - 1]);
        }
    }
}

/// Every word that a text is split into is a word.
pub proof fn lemma_tokens_are_words(s: Seq<char>, i: int)
    requires
        0 <= i <= s.len(),
    ensures
        forall|k: int|
            0 <= k < tokens_from(s, i).len() ==> is_word(#[trigger] tokens_from(s, i)[k]),
    decreases s.len() - i,
{
    lemma_skip_whitespace(s, i);
    let a = skip_whitespace(s, i);
    lemma_skip_word(s, a);
    let b = skip_word(s, a);
    if a < b {
        let word = s.subrange(a, b);
        assert forall|j: int| 0 <= j < word.len() implies !is_whitespace(#[trigger] word[j]) by {
            assert(word[j] == s[a + j]);
        }
        lemma_tokens_are_words(s, b);
        let rest = tokens_from(s, b);
        assert forall|k: int| 0 <= k < tokens_from(s, i).len() implies is_word(
            #[trigger] tokens_from(s, i)[k],
        ) by {
            if k > 0 {
                assert(tokens_from(s, i)[k] == rest[k - 1]);
            }
        }
    }
}

/// Words joined by single spaces make a text without line breaks.
pub proof fn lemma_joined_words_are_one_line(words: Seq<Seq<char>>)
    requires
        forall|k: int| 0 <= k < words.len() ==> is_word(#[trigger] words[k]),
    ensures
        is_one_line(join_words(words)),
    decreases words.len(),
{
    if words.len() == 0 {
    } else if words.len() == 1 {
        lemma_word_is_one_line(words[0]);
    } else {
        let front = words.drop_last();
        assert forall|k: int| 0 <= k < front.len() implies is_word(#[trigger] front[k]) by {
            assert(front[k] == words[k]);
        }
        lemma_joined_words_are_one_line(front);
        lemma_word_is_one_line(words.last());
        lemma_spaced_is_one_line(join_words(front), words.last());
    }
}

/// A request that is fit for the wire: target and version are words, the
/// headers are fit for the wire, and `Content-Length`, if it is there,
/// spells a length.
pub open spec fn request_fits_wire(request: RequestView) -> bool {
    &&& is_word(request.resource)
    &&& is_word(request.version)
    &&& headers_fit_wire(request.headers)
    &&& !(declared_length(request.headers) is Unreadable)
}

/// A response that is fit for the wire: the version is a word, the status
/// is the one that stands for its number, the words of the message have
/// single spaces between them and none around them, the headers are fit
/// for the wire, and `Content-Length`, if it is there, spells a length.
pub open spec fn response_fits_wire(response: ResponseView) -> bool {
    &&& is_word(response.version)
    &&& response.status_code.is_canonical()
    &&& response.status_message == join_words(tokens(response.status_message))
    &&& headers_fit_wire(response.headers)
    &&& !(declared_length(response.headers) is Unreadable)
}

/// A start line, a line break, the block of headers fit for the wire, the
/// blank line and a body are split where they were joined.
pub proof fn lemma_message_is_split(start: Seq<char>, headers: HeaderList, body: Seq<char>)
    requires
        is_one_line(start),
        headers_fit_wire(headers),
    ensures
        ({
            let head = start + crlf() + block_of(headers);
            let text = head + delimiter() + body;
            &&& text == start + crlf() + serialize(headers) + crlf() + body
            &&& find(text, delimiter()) == Some(head.len() as int)
            &&& text.subrange(0, head.len() as int) == head
            &&& text.subrange(head.len() as int + 4, text.len() as int) == body
            &&& find(head, crlf()) == Some(start.len() as int)
            &&& head.subrange(0, start.len() as int) == start
            &&& head.subrange(start.len() as int + 2, head.len() as int) == block_of(headers)
            &&& parse_block(block_of(headers)) == Some(headers)
        }),
{
    let block = block_of(headers);
    let head = start + crlf() + block;
    let text = head + delimiter() + body;
    assert(crlf().len() == 2);
    assert(delimiter().len() == 4);
    assert(delimiter() =~= crlf() + crlf());
    law_headers_round_trip(headers);
    assert(text =~= start + crlf() + serialize(headers) + crlf() + body);
    lemma_block_has_no_empty_line(headers);
    lemma_lines_have_no_empty_line(start, block);
    lemma_blank_line_is_found(head, body);
    assert(text.subrange(0, head.len() as int) =~= head);
    assert(text.subrange(head.len() as int + 4, text.len() as int) =~= body);
    lemma_first_line(start, block);
    assert(head.subrange(0, start.len() as int) =~= start);
    assert(head.subrange(start.len() as int + 2, head.len() as int) =~= block);
}

/// The head of a request on the wire: the request line, a line break, and
/// the header block.
pub open spec fn request_head(request: RequestView) -> Seq<char> {
    request.method.text() + seq![' '] + request.resource + seq![' '] + request.version + crlf()
        + block_of(request.headers)
}

/// The head of a response on the wire: the status line, a line break, and
/// the header block.
pub open spec fn response_head(response: ResponseView) -> Seq<char> {
    response.version + seq![' '] + decimal(response.status_code.number() as nat) + seq![' ']
        + response.status_message + crlf() + block_of(response.headers)
}

/// The text of the wire form of a request that is fit for the wire is read
/// back as that request.
proof fn lemma_request_text_round_trip(request: RequestView)
    requires
        request_fits_wire(request),
    ensures
        parse_request_text(request_wire(request)) matches Ok((read, _)) && read == request,
        parse_request_text(request_wire(request)) matches Ok((read, _)) && request_wire(read)
            == request_wire(request),
        request_body_length(request.headers) matches Ok(expected) && parse_request_text(
            request_wire(request),
        ) == Ok::<_, ParseError>((request, expected)),
        request_wire(request) == request_head(request) + delimiter() + request.body,
        find(request_wire(request), delimiter()) == Some(request_head(request).len() as int),
{
    let token = request.method.text();
    let start = token + seq![' '] + request.resource + seq![' '] + request.version;
    law_method_token_reads_back(request.method);
    assert(is_word(token));
    lemma_word_is_one_line(token);
    lemma_word_is_one_line(request.resource);
    lemma_word_is_one_line(request.version);
    lemma_spaced_is_one_line(token, request.resource);
    lemma_spaced_is_one_line(token + seq![' '] + request.resource, request.version);
    lemma_message_is_split(start, request.headers, request.body);
    // The request line.
    let rest = request.resource + seq![' '] + request.version;
    assert(start =~= token + seq![' '] + rest);
    lemma_tokens_of_word_and_rest(token, rest);
    lemma_tokens_of_word_and_rest(request.resource, request.version);
    lemma_tokens_of_word(request.version);
    assert(tokens(start) =~= seq![token, request.resource, request.version]);
    assert(parse_request_line(start) == Ok::<_, ParseError>(
        (request.method, request.resource, request.version),
    ));
    let head = start + crlf() + block_of(request.headers);
    let text = head + delimiter() + request.body;
    assert(request_wire(request) == text);
    vstd::utf8::encode_utf8_valid_utf8(text);
    vstd::utf8::encode_utf8_decode_utf8(text);
}

/// The request `request` without its body.
pub open spec fn bare_request(request: RequestView) -> RequestView {
    RequestView { body: Seq::empty(), ..request }
}

/// Round trip of requests: a request that is fit for the wire is read back
/// from its wire form as it was, from the text and from the bytes; so the
/// wire form of what is read from such a wire form is that wire form again.
/// The bytes are split at their first blank line, which is where the head
/// ends: the bytes up to it give the request without its body, and the
/// bytes after it are the bytes of the body.
pub proof fn law_request_round_trip(request: RequestView)
    requires
        request_fits_wire(request),
    ensures
        parse_request_text(request_wire(request)) matches Ok((read, _)) && read == request,
        parse_request_text(request_wire(request)) matches Ok((read, _)) && request_wire(read)
            == request_wire(request),
        request_body_length(request.headers) matches Ok(expected) && parse_request_text(
            request_wire(request),
        ) == Ok::<_, ParseError>((request, expected)),
        request_wire(request) == request_head(request) + delimiter() + request.body,
        find(request_wire(request), delimiter()) == Some(request_head(request).len() as int),
        request_body_length(request.headers) matches Ok(expected) && parse_request_bytes(
            encode_utf8(request_wire(request)),
        ) == Ok::<_, ParseError>((bare_request(request), expected, encode_utf8(request.body))),
        first_blank_line(encode_utf8(request_wire(request))) == Some(
            utf8_len(request_head(request)) as int,
        ),
        encode_utf8(request_wire(request)).len() == utf8_len(request_head(request)) + 4 + utf8_len(
            request.body,
        ),
{
    let wire = request_wire(request);
    let bytes = encode_utf8(wire);
    let head = request_head(request);
    let d = head.len() as int;
    let bare = bare_request(request);
    lemma_request_text_round_trip(request);
    lemma_request_text_round_trip(bare);
    lemma_delimiter_in_bytes(wire, d);
    let p = utf8_len(head) as int;
    assert(delimiter().len() == 4);
    assert(wire.take(d) =~= head);
    assert(wire.take(d + 4) =~= head + delimiter());
    assert(wire.skip(d + 4) =~= request.body);
    assert(request_wire(bare) =~= head + delimiter());
    let start = encode_utf8(wire.take(d + 4));
    assert(bytes.take(p + 4) =~= start);
    assert(bytes.skip(p + 4) =~= encode_utf8(request.body));
    vstd::utf8::encode_utf8_valid_utf8(wire.take(d + 4));
    vstd::utf8::encode_utf8_decode_utf8(wire.take(d + 4));
}

/// The text of the wire form of a response that is fit for the wire is
/// read back as that response. An empty message keeps the space before it
/// on the wire, and a status that the registry does not list keeps its
/// number.
proof fn lemma_response_text_round_trip(response: ResponseView)
    requires
        response_fits_wire(response),
    ensures
        parse_response_text(response_wire(response)) matches Ok((read, _)) && read == response,
        parse_response_text(response_wire(response)) matches Ok((read, _)) && response_wire(read)
            == response_wire(response),
        response_body_length(response.headers) matches Ok(expected) && parse_response_text(
            response_wire(response),
        ) == Ok::<_, ParseError>((response, expected)),
        response_wire(response) == response_head(response) + delimiter() + response.body,
        find(response_wire(response), delimiter()) == Some(response_head(response).len() as int),
{
    let numeral = decimal(response.status_code.number() as nat);
    let message = response.status_message;
    let start = response.version + seq![' '] + numeral + seq![' '] + message;
    lemma_decimal_parses(response.status_code.number() as nat);
    assert(is_word(numeral)) by {
        assert forall|i: int| 0 <= i < numeral.len() implies !is_whitespace(
            #[trigger] numeral[i],
        ) by {
            assert(crate::text::is_digit(numeral[i]));
        }
    }
    law_numeral_reads_back(response.status_code);
    lemma_tokens_are_words(message, 0);
    lemma_joined_words_are_one_line(tokens(message));
    lemma_word_is_one_line(response.version);
    lemma_word_is_one_line(numeral);
    lemma_spaced_is_one_line(response.version, numeral);
    lemma_spaced_is_one_line(response.version + seq![' '] + numeral, message);
    lemma_message_is_split(start, response.headers, response.body);
    // The status line.
    let rest = numeral + seq![' '] + message;
    assert(start =~= response.version + seq![' '] + rest);
    lemma_tokens_of_word_and_rest(response.version, rest);
    lemma_tokens_of_word_and_rest(numeral, message);
    let words = tokens(start);
    assert(words =~= seq![response.version, numeral] + tokens(message));
    assert(words.subrange(2, words.len() as int) =~= tokens(message));
    assert(parse_status_line(start) == Ok::<_, ParseError>(
        (response.version, response.status_code, message),
    ));
    let head = start + crlf() + block_of(response.headers);
    let text = head + delimiter() + response.body;
    assert(response_wire(response) == text);
    vstd::utf8::encode_utf8_valid_utf8(text);
    vstd::utf8::encode_utf8_decode_utf8(text);
}

/// The response `response` without its body.
pub open spec fn bare_response(response: ResponseView) -> ResponseView {
    ResponseView { body: Seq::empty(), ..response }
}

/// Round trip of responses: a response that is fit for the wire is read back
/// from its wire form as it was, from the text and from the bytes; so the
/// wire form of what is read from such a wire form is that wire form again.
/// The bytes are split at their first blank line, which is where the head
/// ends: the bytes up to it give the response without its body, and the
/// bytes after it are the bytes of the body.
pub proof fn law_response_round_trip(response: ResponseView)
    requires
        response_fits_wire(response),
    ensures
        parse_response_text(response_wire(response)) matches Ok((read, _)) && read == response,
        parse_response_text(response_wire(response)) matches Ok((read, _)) && response_wire(read)
            == response_wire(response),
        response_body_length(response.headers) matches Ok(expected) && parse_response_text(
            response_wire(response),
        ) == Ok::<_, ParseError>((response, expected)),
        response_wire(response) == response_head(response) + delimiter() + response.body,
        find(response_wire(response), delimiter()) == Some(response_head(response).len() as int),
        response_body_length(response.headers) matches Ok(expected) && parse_response_bytes(
            encode_utf8(response_wire(response)),
        ) == Ok::<_, ParseError>((bare_response(response), expected, encode_utf8(response.body))),
        first_blank_line(encode_utf8(response_wire(response))) == Some(
            utf8_len(response_head(response)) as int,
        ),
        encode_utf8(response_wire(response)).len() == utf8_len(response_head(response)) + 4
            + utf8_len(response.body),
{
    let wire = response_wire(response);
    let bytes = encode_utf8(wire);
    let head = response_head(response);
    let d = head.len() as int;
    let bare = bare_response(response);
    lemma_response_text_round_trip(response);
    lemma_response_text_round_trip(bare);
    lemma_delimiter_in_bytes(wire, d);
    let p = utf8_len(head) as int;
    assert(delimiter().len() == 4);
    assert(wire.take(d) =~= head);
    assert(wire.take(d + 4) =~= head + delimiter());
    assert(wire.skip(d + 4) =~= response.body);
    assert(response_wire(bare) =~= head + delimiter());
    let start = encode_utf8(wire.take(d + 4));
    assert(bytes.take(p + 4) =~= start);
    assert(bytes.skip(p + 4) =~= encode_utf8(response.body));
    vstd::utf8::encode_utf8_valid_utf8(wire.take(d + 4));
    vstd::utf8::encode_utf8_decode_utf8(wire.take(d + 4));
}

/// What becomes of bytes that are read at once and are all that there is:
/// the request with a body of no more than the declared length and the
/// bytes beyond it left over; or the error.
pub open spec fn request_read_at_once(bytes: Seq<u8>) -> RequestProgress {
    match parse_request_bytes(bytes) {
        Ok((request, declared, body)) => match request_settled(request, declared, body) {
            RequestProgress::Body(short, _, arrived) => request_completed(
                short,
                arrived,
                Seq::empty(),
            ),
            settled => settled,
        },
        Err(error) => RequestProgress::Failed(error),
    }
}

/// A stream that one read exhausts is read as its bytes are read at once:
/// the request that they spell, with a body of no more than the declared
/// length; or the error. What is left unread is what came after the
/// request. A stream without a byte is `Closed`.
pub proof fn law_short_request_stream(bytes: Seq<u8>)
    requires
        bytes.len() <= REQUEST_CHUNK,
    ensures
        request_read(bytes).0 == if bytes.len() == 0 {
            RequestProgress::Failed(ParseError::Closed)
        } else {
            request_read_at_once(bytes)
        },
        request_read(bytes).1 == request_read(bytes).0.leftover(),
{
    reveal_with_fuel(request_run, 4);
    let nothing = Seq::<u8>::empty();
    let start = RequestProgress::Head(nothing);
    assert(bytes.take(bytes.len() as int) =~= bytes);
    assert(bytes.skip(bytes.len() as int) =~= nothing);
    assert(nothing + bytes =~= bytes);
    assert(nothing.take(0) =~= nothing);
    assert(nothing.skip(0) =~= nothing);
    lemma_holds_blank_line(bytes);
    if bytes.len() == 0 {
        assert(bytes =~= nothing);
    } else {
        let first = request_fed(start, bytes);
        assert(request_read(bytes) == request_run(first, nothing));
        assert(forall|rest: Seq<u8>| rest + nothing =~= rest);
    }
}

/// The bytes of a body of no more than the declared length complete the
/// request, when they are all that there is.
proof fn lemma_request_body_completes(request: RequestView, declared: Option<usize>)
    requires
        request_body_length(request.headers) == Ok::<_, ParseError>(declared),
        body_within_declared(request.headers, request.body),
    ensures
        (match request_settled(bare_request(request), declared, encode_utf8(request.body)) {
            RequestProgress::Body(short, _, arrived) => request_completed(
                short,
                arrived,
                Seq::empty(),
            ),
            settled => settled,
        }) == RequestProgress::Done(request, Seq::empty()),
{
    let body = encode_utf8(request.body);
    vstd::utf8::encode_utf8_valid_utf8(request.body);
    vstd::utf8::encode_utf8_decode_utf8(request.body);
    assert(body.take(body.len() as int) =~= body);
    assert(body.skip(body.len() as int) =~= Seq::<u8>::empty());
    assert(RequestView { body: request.body, ..bare_request(request) } == request);
    assert(request_completed(bare_request(request), body, Seq::empty()) == RequestProgress::Done(
        request,
        Seq::empty(),
    ));
}

/// Round trip through a stream: a request that is fit for the wire, whose
/// body has no more bytes than its headers declare, and whose wire form
/// one read exhausts, is read from the stream of its bytes as it was, and
/// nothing is left over.
pub proof fn law_request_survives_stream(request: RequestView)
    requires
        request_fits_wire(request),
        body_within_declared(request.headers, request.body),
        encode_utf8(request_wire(request)).len() <= REQUEST_CHUNK,
    ensures
        request_read(encode_utf8(request_wire(request))).0 == RequestProgress::Done(
            request,
            Seq::empty(),
        ),
{
    let bytes = encode_utf8(request_wire(request));
    law_request_round_trip(request);
    law_short_request_stream(bytes);
    if let Ok(declared) = request_body_length(request.headers) {
        lemma_request_body_completes(request, declared);
    }
}

/// What follows a request is handed back: when the wire form of a request
/// whose body has the declared length is followed on the stream by more
/// bytes, whatever they are, and one read takes all of it, the request is
/// read as it was, with a body of exactly the declared length, and the
/// bytes that followed are left over and count as unread.
pub proof fn law_request_leaves_what_follows(request: RequestView, rest: Seq<u8>)
    requires
        request_fits_wire(request),
        request_body_length(request.headers) matches Ok(Some(n)) && n == utf8_len(request.body),
        encode_utf8(request_wire(request)).len() + rest.len() <= REQUEST_CHUNK,
    ensures
        request_read(encode_utf8(request_wire(request)) + rest) == (
            RequestProgress::Done(request, rest),
            rest,
        ),
{
    let wire_bytes = encode_utf8(request_wire(request));
    let bytes = wire_bytes + rest;
    let body = encode_utf8(request.body);
    let p = utf8_len(request_head(request)) as int;
    law_request_round_trip(request);
    lemma_first_blank_line_stays(wire_bytes, p, wire_bytes.len() as int, rest);
    crate::wire::lemma_blank_line_from(wire_bytes, 0);
    assert(bytes.take(p + 4) =~= wire_bytes.take(p + 4));
    assert(wire_bytes.skip(p + 4) == body);
    assert(bytes.skip(p + 4) =~= body + rest);
    law_short_request_stream(bytes);
    vstd::utf8::encode_utf8_valid_utf8(request.body);
    vstd::utf8::encode_utf8_decode_utf8(request.body);
    assert((body + rest).take(body.len() as int) =~= body);
    assert((body + rest).skip(body.len() as int) =~= rest);
    assert(RequestView { body: request.body, ..bare_request(request) } == request);
}

/// What becomes of bytes that are read at once and are all that there is:
/// the response with a body of no more than the declared length and the
/// bytes beyond it left over; or the error.
pub open spec fn response_read_at_once(bytes: Seq<u8>) -> ResponseProgress {
    match parse_response_bytes(bytes) {
        Ok((response, declared, body)) => match response_settled(response, declared, body) {
            ResponseProgress::Body(short, _, arrived) => response_completed(
                short,
                arrived,
                Seq::empty(),
            ),
            settled => settled,
        },
        Err(error) => ResponseProgress::Failed(error),
    }
}

/// A stream that one read exhausts is read as its bytes are read at once:
/// the response that they spell, with a body of no more than the declared
/// length; or the error. What is left unread is what came after the
/// response.
pub proof fn law_short_response_stream(bytes: Seq<u8>)
    requires
        bytes.len() <= RESPONSE_CHUNK,
    ensures
        response_read(bytes).0 == response_read_at_once(bytes),
        response_read(bytes).1 == response_read(bytes).0.leftover(),
{
    reveal_with_fuel(response_run, 4);
    let nothing = Seq::<u8>::empty();
    let start = ResponseProgress::Head(nothing);
    assert(bytes.take(bytes.len() as int) =~= bytes);
    assert(bytes.skip(bytes.len() as int) =~= nothing);
    assert(nothing + bytes =~= bytes);
    assert(nothing.take(0) =~= nothing);
    assert(nothing.skip(0) =~= nothing);
    lemma_holds_blank_line(bytes);
    if bytes.len() == 0 {
        assert(bytes =~= nothing);
    } else {
        let first = response_fed(start, bytes);
        assert(response_read(bytes) == response_run(first, nothing));
        assert(forall|rest: Seq<u8>| rest + nothing =~= rest);
    }
}

/// The bytes of a body of no more than the declared length complete the
/// response, when they are all that there is.
proof fn lemma_response_body_completes(response: ResponseView, declared: Option<usize>)
    requires
        response_body_length(response.headers) == Ok::<_, ParseError>(declared),
        body_within_declared(response.headers, response.body),
    ensures
        (match response_settled(bare_response(response), declared, encode_utf8(response.body)) {
            ResponseProgress::Body(short, _, arrived) => response_completed(
                short,
                arrived,
                Seq::empty(),
            ),
            settled => settled,
        }) == ResponseProgress::Done(response, Seq::empty()),
{
    let body = encode_utf8(response.body);
    vstd::utf8::encode_utf8_valid_utf8(response.body);
    vstd::utf8::encode_utf8_decode_utf8(response.body);
    assert(body.take(body.len() as int) =~= body);
    assert(body.skip(body.len() as int) =~= Seq::<u8>::empty());
    assert(ResponseView { body: response.body, ..bare_response(response) } == response);
    assert(response_completed(bare_response(response), body, Seq::empty())
        == ResponseProgress::Done(response, Seq::empty()));
}

/// Round trip through a stream: a response that is fit for the wire, whose
/// body has no more bytes than its headers declare, and whose wire form
/// one read exhausts, is read from the stream of its bytes as it was, and
/// nothing is left over.
pub proof fn law_response_survives_stream(response: ResponseView)
    requires
        response_fits_wire(response),
        body_within_declared(response.headers, response.body),
        encode_utf8(response_wire(response)).len() <= RESPONSE_CHUNK,
    ensures
        response_read(encode_utf8(response_wire(response))).0 == ResponseProgress::Done(
            response,
            Seq::empty(),
        ),
{
    let bytes = encode_utf8(response_wire(response));
    law_response_round_trip(response);
    law_short_response_stream(bytes);
    if let Ok(declared) = response_body_length(response.headers) {
        lemma_response_body_completes(response, declared);
    }
}

/// What follows a response is handed back: when the wire form of a response
/// whose body has the declared length is followed on the stream by more
/// bytes, whatever they are, and one read takes all of it, the response is
/// read as it was, with a body of exactly the declared length, and the
/// bytes that followed are left over and count as unread.
pub proof fn law_response_leaves_what_follows(response: ResponseView, rest: Seq<u8>)
    requires
        response_fits_wire(response),
        response_body_length(response.headers) matches Ok(Some(n)) && n == utf8_len(response.body),
        encode_utf8(response_wire(response)).len() + rest.len() <= RESPONSE_CHUNK,
    ensures
        response_read(encode_utf8(response_wire(response)) + rest) == (
            ResponseProgress::Done(response, rest),
            rest,
        ),
{
    let wire_bytes = encode_utf8(response_wire(response));
    let bytes = wire_bytes + rest;
    let body = encode_utf8(response.body);
    let p = utf8_len(response_head(response)) as int;
    law_response_round_trip(response);
    lemma_first_blank_line_stays(wire_bytes, p, wire_bytes.len() as int, rest);
    crate::wire::lemma_blank_line_from(wire_bytes, 0);
    assert(bytes.take(p + 4) =~= wire_bytes.take(p + 4));
    assert(wire_bytes.skip(p + 4) == body);
    assert(bytes.skip(p + 4) =~= body + rest);
    law_short_response_stream(bytes);
    vstd::utf8::encode_utf8_valid_utf8(response.body);
    vstd::utf8::encode_utf8_decode_utf8(response.body);
    assert((body + rest).take(body.len() as int) =~= body);
    assert((body + rest).skip(body.len() as int) =~= rest);
    assert(ResponseView { body: response.body, ..bare_response(response) } == response);
}

} // verus!
