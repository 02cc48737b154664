//! Round trips through streams of any length: a message whose body has
//! the declared length is read from the stream of its bytes as it was,
//! however these bytes are cut into chunks and however many reads that
//! takes.

use crate::request::{
    body_within_declared, lemma_request_fed, parse_request_bytes, request_body_length,
    request_fed, request_head_read, request_read, request_run, request_settled, request_wire,
    RequestProgress, RequestView, REQUEST_CHUNK,
};
use crate::response::{
    lemma_response_fed, parse_response_bytes, response_body_length, response_fed,
    response_head_read, response_read, response_run, response_settled, response_wire,
    ResponseProgress, ResponseView, RESPONSE_CHUNK,
};
use crate::round_trip::{
    bare_request, bare_response, law_request_round_trip, law_response_round_trip,
    request_fits_wire, request_head, response_fits_wire, response_head,
};
use crate::wire::{
    first_chunk_len, lemma_first_blank_line_stays, lemma_holds_blank_line, utf8_len, ParseError,
};
use vstd::prelude::*;
use vstd::utf8::encode_utf8;

verus! {

/// The chunks of `chunks`, one after the other.
pub open spec fn joined(chunks: Seq<Seq<u8>>) -> Seq<u8>
    decreases chunks.len(),
{
    if chunks.len() == 0 {
        Seq::empty()
    } else {
        chunks[0] + joined(chunks.drop_first())
    }
}

/// None of the chunks is empty: the stream has not ended.
pub open spec fn all_filled(chunks: Seq<Seq<u8>>) -> bool {
    forall|i: int| 0 <= i < chunks.len() ==> (#[trigger] chunks[i]).len() > 0
}

/// Chunks that make up the bytes of `bytes` from index `k` on start with
/// the bytes at `k`, and the chunks after the first make up the rest.
proof fn lemma_first_chunk(bytes: Seq<u8>, k: int, chunks: Seq<Seq<u8>>)
    requires
        0 <= k <= bytes.len(),
        chunks.len() > 0,
        joined(chunks) == bytes.skip(k),
    ensures
        k + chunks[0].len() <= bytes.len(),
        chunks[0] == bytes.subrange(k, k + chunks[0].len()),
        joined(chunks.drop_first()) == bytes.skip(k + chunks[0].len()),
{
    let n = chunks[0].len() as int;
    let rest = joined(chunks.drop_first());
    let pending = bytes.skip(k);
    assert(pending == chunks[0] + rest);
    assert(pending.len() == n + rest.len());
    assert(chunks[0] =~= pending.subrange(0, n));
    assert(pending.subrange(0, n) =~= bytes.subrange(k, k + n));
    assert(rest =~= pending.subrange(n, pending.len() as int));
    assert(pending.subrange(n, pending.len() as int) =~= bytes.skip(k + n));
}

/// The bytes of a text spell that text, all of them and no fewer.
proof fn lemma_body_bytes(body: Seq<char>)
    ensures
        crate::wire::decoded(encode_utf8(body)) == Some(body),
        encode_utf8(body).take(encode_utf8(body).len() as int) == encode_utf8(body),
        encode_utf8(body).skip(encode_utf8(body).len() as int) == Seq::<u8>::empty(),
        crate::wire::decoded(Seq::<u8>::empty()) == Some(Seq::<char>::empty()),
{
    let bytes = encode_utf8(body);
    vstd::utf8::encode_utf8_valid_utf8(body);
    vstd::utf8::encode_utf8_decode_utf8(body);
    vstd::utf8::encode_utf8_decode_utf8(Seq::<char>::empty());
    vstd::utf8::encode_utf8_valid_utf8(Seq::<char>::empty());
    assert(bytes.take(bytes.len() as int) =~= bytes);
    assert(bytes.skip(bytes.len() as int) =~= Seq::<u8>::empty());
    assert(encode_utf8(Seq::<char>::empty()) =~= Seq::<u8>::empty());
}

/// The number of body bytes that the headers of `request` declare, if they
/// declare one.
pub open spec fn request_declared(request: RequestView) -> Option<usize> {
    match request_body_length(request.headers) {
        Ok(declared) => declared,
        Err(_) => None,
    }
}

/// What the stream laws take for granted of a request: it is fit for the
/// wire, and its body has the length that its headers declare, and is empty
/// where they declare none.
pub open spec fn request_fits_stream(request: RequestView) -> bool {
    &&& request_fits_wire(request)
    &&& utf8_len(request.body) <= usize::MAX
    &&& match request_declared(request) {
        Some(n) => n == utf8_len(request.body),
        None => request.body.len() == 0,
    }
}

/// Where the reading of `request` stands when the first `k` bytes of its
/// wire form have arrived.
pub open spec fn request_progress_at(request: RequestView, k: int) -> RequestProgress {
    let p = utf8_len(request_head(request)) as int;
    let bytes = encode_utf8(request_wire(request));
    if k < p + 4 {
        RequestProgress::Head(bytes.take(k))
    } else if k < p + 4 + utf8_len(request.body) {
        RequestProgress::Body(
            bare_request(request),
            utf8_len(request.body) as usize,
            bytes.subrange(p + 4, k),
        )
    } else {
        RequestProgress::Done(request, Seq::empty())
    }
}

/// Once the first `m` bytes of the wire form of `request` reach past the
/// blank line, what has arrived of the body settles the reading where it
/// stands after `m` bytes.
proof fn lemma_request_settles_at(request: RequestView, m: int)
    requires
        request_fits_stream(request),
        utf8_len(request_head(request)) + 4 <= m <= encode_utf8(request_wire(request)).len(),
    ensures
        request_settled(
            bare_request(request),
            request_declared(request),
            encode_utf8(request_wire(request)).subrange(
                utf8_len(request_head(request)) as int + 4,
                m,
            ),
        ) == request_progress_at(request, m),
{
    let bytes = encode_utf8(request_wire(request));
    let p = utf8_len(request_head(request)) as int;
    let arrived = bytes.subrange(p + 4, m);
    law_request_round_trip(request);
    if m == bytes.len() {
        assert(arrived =~= bytes.skip(p + 4));
        lemma_body_bytes(request.body);
        assert(RequestView { body: request.body, ..bare_request(request) } == request);
    }
}

/// Once the first `m` bytes of the wire form of `request` reach past the
/// blank line, they are read as the head of the request and what has arrived
/// of its body.
proof fn lemma_request_head_is_read(request: RequestView, m: int)
    requires
        request_fits_stream(request),
        utf8_len(request_head(request)) + 4 <= m <= encode_utf8(request_wire(request)).len(),
    ensures
        request_head_read(encode_utf8(request_wire(request)).take(m)) == request_progress_at(
            request,
            m,
        ),
{
    let bytes = encode_utf8(request_wire(request));
    let p = utf8_len(request_head(request)) as int;
    let seen = bytes.take(m);
    law_request_round_trip(request);
    lemma_first_blank_line_stays(bytes, p, m, Seq::empty());
    assert(seen.take(p + 4) =~= bytes.take(p + 4));
    assert(seen.skip(p + 4) =~= bytes.subrange(p + 4, m));
    assert(parse_request_bytes(seen) == Ok::<_, ParseError>(
        (bare_request(request), request_declared(request), bytes.subrange(p + 4, m)),
    ));
    lemma_request_settles_at(request, m);
}

/// One more chunk: after the first `k` bytes of the wire form of `request`,
/// its next `n` bytes take the reading to where it stands after `k + n`
/// bytes.
proof fn lemma_request_step(request: RequestView, k: int, n: int)
    requires
        request_fits_stream(request),
        0 <= k,
        0 < n,
        k + n <= encode_utf8(request_wire(request)).len(),
    ensures
        request_fed(
            request_progress_at(request, k),
            encode_utf8(request_wire(request)).subrange(k, k + n),
        ) == request_progress_at(request, k + n),
{
    let bytes = encode_utf8(request_wire(request));
    let p = utf8_len(request_head(request)) as int;
    let m = k + n;
    law_request_round_trip(request);
    if k < p + 4 {
        assert(bytes.take(k) + bytes.subrange(k, m) =~= bytes.take(m));
        lemma_first_blank_line_stays(bytes, p, m, Seq::empty());
        lemma_holds_blank_line(bytes.take(m));
        if m >= p + 4 {
            lemma_request_head_is_read(request, m);
        }
    } else {
        assert(bytes.subrange(p + 4, k) + bytes.subrange(k, m) =~= bytes.subrange(p + 4, m));
        lemma_request_settles_at(request, m);
    }
}

/// The state after each of `chunks` has been fed, in order.
pub open spec fn request_fed_each(state: RequestProgress, chunks: Seq<Seq<u8>>) -> RequestProgress
    decreases chunks.len(),
{
    if chunks.len() == 0 {
        state
    } else {
        request_fed_each(request_fed(state, chunks[0]), chunks.drop_first())
    }
}

/// After the first `k` bytes of the wire form of `request`, chunks that
/// make up the rest of it complete the request.
proof fn lemma_request_chunks(request: RequestView, k: int, chunks: Seq<Seq<u8>>)
    requires
        request_fits_stream(request),
        0 <= k <= encode_utf8(request_wire(request)).len(),
        all_filled(chunks),
        joined(chunks) == encode_utf8(request_wire(request)).skip(k),
    ensures
        request_fed_each(request_progress_at(request, k), chunks) == request_progress_at(
            request,
            encode_utf8(request_wire(request)).len() as int,
        ),
    decreases chunks.len(),
{
    let bytes = encode_utf8(request_wire(request));
    if chunks.len() == 0 {
        assert(bytes.skip(k).len() == 0);
    } else {
        let n = chunks[0].len() as int;
        let rest = chunks.drop_first();
        lemma_first_chunk(bytes, k, chunks);
        lemma_request_step(request, k, n);
        assert(all_filled(rest)) by {
            assert forall|i: int| 0 <= i < rest.len() implies (#[trigger] rest[i]).len() > 0 by {
                assert(rest[i] == chunks[i + 1]);
            }
        }
        lemma_request_chunks(request, k + n, rest);
    }
}

/// After the first `k` bytes of the wire form of `request`, reading the
/// rest of it, one read after the other, completes the request.
proof fn lemma_request_reads(request: RequestView, k: int)
    requires
        request_fits_stream(request),
        0 <= k <= encode_utf8(request_wire(request)).len(),
    ensures
        request_run(
            request_progress_at(request, k),
            encode_utf8(request_wire(request)).skip(k),
        ) == (
            RequestProgress::Done(request, Seq::empty()),
            Seq::<u8>::empty(),
        ),
    decreases encode_utf8(request_wire(request)).len() - k,
{
    let bytes = encode_utf8(request_wire(request));
    let pending = bytes.skip(k);
    law_request_round_trip(request);
    if k == bytes.len() {
        assert(pending =~= Seq::<u8>::empty());
        assert(Seq::<u8>::empty() + pending =~= pending);
    } else {
        let n = first_chunk_len(pending, REQUEST_CHUNK as nat) as int;
        assert(pending.take(n) =~= bytes.subrange(k, k + n));
        assert(pending.skip(n) =~= bytes.skip(k + n));
        lemma_request_step(request, k, n);
        lemma_request_reads(request, k + n);
    }
}

/// Round trip under partial reads: a request that is fit for the wire, with
/// a body of the length that its headers declare (and without a body where
/// they declare none), is complete, and is what it was, once the bytes of
/// its wire form have arrived, in whatever chunks they arrive. A character
/// may be split between two chunks.
pub proof fn law_request_survives_any_chunking(request: RequestView, chunks: Seq<Seq<u8>>)
    requires
        request_fits_stream(request),
        all_filled(chunks),
        joined(chunks) == encode_utf8(request_wire(request)),
    ensures
        request_fed_each(RequestProgress::Head(Seq::empty()), chunks) == RequestProgress::Done(
            request,
            Seq::empty(),
        ),
{
    let bytes = encode_utf8(request_wire(request));
    law_request_round_trip(request);
    assert(bytes.take(0) =~= Seq::<u8>::empty());
    assert(bytes.skip(0) =~= bytes);
    lemma_request_chunks(request, 0, chunks);
}

/// Round trip through a stream of any length: a request that is fit for the
/// wire, with a body of the length that its headers declare (and without a
/// body where they declare none), is read from the stream of its bytes as it was, and
/// nothing is left unread.
pub proof fn law_request_survives_long_stream(request: RequestView)
    requires
        request_fits_stream(request),
    ensures
        request_read(encode_utf8(request_wire(request))) == (
            RequestProgress::Done(request, Seq::empty()),
            Seq::<u8>::empty(),
        ),
{
    let bytes = encode_utf8(request_wire(request));
    law_request_round_trip(request);
    assert(bytes.take(0) =~= Seq::<u8>::empty());
    assert(bytes.skip(0) =~= bytes);
    lemma_request_reads(request, 0);
}

/// Each chunk keeps the body within the declared length.
proof fn lemma_request_chunks_keep_within(state: RequestProgress, chunks: Seq<Seq<u8>>)
    requires
        state.within_declared(),
    ensures
        request_fed_each(state, chunks).within_declared(),
    decreases chunks.len(),
{
    if chunks.len() > 0 {
        assert(state.held().skip(0) =~= state.held());
        lemma_request_fed(state, chunks[0], state.held());
        lemma_request_chunks_keep_within(request_fed(state, chunks[0]), chunks.drop_first());
    }
}

/// The body keeps within the declared length: whatever the bytes of a
/// stream are and in whatever chunks they arrive, a request that comes of
/// them has no more body bytes than its headers declare.
pub proof fn law_request_body_is_within_declared_length(chunks: Seq<Seq<u8>>)
    ensures
        request_fed_each(RequestProgress::Head(Seq::empty()), chunks) matches RequestProgress::Done(
            request,
            _,
        ) ==> body_within_declared(request.headers, request.body),
{
    lemma_request_chunks_keep_within(RequestProgress::Head(Seq::empty()), chunks);
}

/// The number of body bytes that the headers of `response` declare, if they
/// declare one.
pub open spec fn response_declared(response: ResponseView) -> Option<usize> {
    match response_body_length(response.headers) {
        Ok(declared) => declared,
        Err(_) => None,
    }
}

/// What the stream laws take for granted of a response: it is fit for the
/// wire, and its body has the length that its headers declare, if they declare one.
pub open spec fn response_fits_stream(response: ResponseView) -> bool {
    &&& response_fits_wire(response)
    &&& utf8_len(response.body) <= usize::MAX
    &&& match response_declared(response) {
        Some(n) => n == utf8_len(response.body),
        None => true,
    }
}

/// Where the reading of `response` stands when the first `k` bytes of its
/// wire form have arrived. Without a declared length the reading waits
/// on, also when all of them are there.
pub open spec fn response_progress_at(response: ResponseView, k: int) -> ResponseProgress {
    let p = utf8_len(response_head(response)) as int;
    let bytes = encode_utf8(response_wire(response));
    if k < p + 4 {
        ResponseProgress::Head(bytes.take(k))
    } else if response_declared(response).is_none() || k < p + 4 + utf8_len(response.body) {
        ResponseProgress::Body(
            bare_response(response),
            response_declared(response),
            bytes.subrange(p + 4, k),
        )
    } else {
        ResponseProgress::Done(response, Seq::empty())
    }
}

/// Once the first `m` bytes of the wire form of `response` reach past the
/// blank line, what has arrived of the body settles the reading where it
/// stands after `m` bytes.
proof fn lemma_response_settles_at(response: ResponseView, m: int)
    requires
        response_fits_stream(response),
        utf8_len(response_head(response)) + 4 <= m <= encode_utf8(response_wire(response)).len(),
    ensures
        response_settled(
            bare_response(response),
            response_declared(response),
            encode_utf8(response_wire(response)).subrange(
                utf8_len(response_head(response)) as int + 4,
                m,
            ),
        ) == response_progress_at(response, m),
{
    let bytes = encode_utf8(response_wire(response));
    let p = utf8_len(response_head(response)) as int;
    let arrived = bytes.subrange(p + 4, m);
    law_response_round_trip(response);
    if m == bytes.len() {
        assert(arrived =~= bytes.skip(p + 4));
        lemma_body_bytes(response.body);
        assert(ResponseView { body: response.body, ..bare_response(response) } == response);
    }
}

/// Once the first `m` bytes of the wire form of `response` reach past the
/// blank line, they are read as the head of the response and what has arrived
/// of its body.
proof fn lemma_response_head_is_read(response: ResponseView, m: int)
    requires
        response_fits_stream(response),
        utf8_len(response_head(response)) + 4 <= m <= encode_utf8(response_wire(response)).len(),
    ensures
        response_head_read(encode_utf8(response_wire(response)).take(m)) == response_progress_at(
            response,
            m,
        ),
{
    let bytes = encode_utf8(response_wire(response));
    let p = utf8_len(response_head(response)) as int;
    let seen = bytes.take(m);
    law_response_round_trip(response);
    lemma_first_blank_line_stays(bytes, p, m, Seq::empty());
    assert(seen.take(p + 4) =~= bytes.take(p + 4));
    assert(seen.skip(p + 4) =~= bytes.subrange(p + 4, m));
    assert(parse_response_bytes(seen) == Ok::<_, ParseError>(
        (bare_response(response), response_declared(response), bytes.subrange(p + 4, m)),
    ));
    lemma_response_settles_at(response, m);
}

/// One more chunk: after the first `k` bytes of the wire form of `response`,
/// its next `n` bytes take the reading to where it stands after `k + n`
/// bytes.
proof fn lemma_response_step(response: ResponseView, k: int, n: int)
    requires
        response_fits_stream(response),
        0 <= k,
        0 < n,
        k + n <= encode_utf8(response_wire(response)).len(),
    ensures
        response_fed(
            response_progress_at(response, k),
            encode_utf8(response_wire(response)).subrange(k, k + n),
        ) == response_progress_at(response, k + n),
{
    let bytes = encode_utf8(response_wire(response));
    let p = utf8_len(response_head(response)) as int;
    let m = k + n;
    law_response_round_trip(response);
    if k < p + 4 {
        assert(bytes.take(k) + bytes.subrange(k, m) =~= bytes.take(m));
        lemma_first_blank_line_stays(bytes, p, m, Seq::empty());
        lemma_holds_blank_line(bytes.take(m));
        if m >= p + 4 {
            lemma_response_head_is_read(response, m);
        }
    } else {
        assert(bytes.subrange(p + 4, k) + bytes.subrange(k, m) =~= bytes.subrange(p + 4, m));
        lemma_response_settles_at(response, m);
    }
}

/// The state after each of `chunks` has been fed, in order.
pub open spec fn response_fed_each(state: ResponseProgress, chunks: Seq<Seq<u8>>)
    -> ResponseProgress
    decreases chunks.len(),
{
    if chunks.len() == 0 {
        state
    } else {
        response_fed_each(response_fed(state, chunks[0]), chunks.drop_first())
    }
}

/// After the first `k` bytes of the wire form of `response`, chunks that
/// make up the rest of it take the reading to where it stands when all of
/// its bytes are there.
proof fn lemma_response_chunks(response: ResponseView, k: int, chunks: Seq<Seq<u8>>)
    requires
        response_fits_stream(response),
        0 <= k <= encode_utf8(response_wire(response)).len(),
        all_filled(chunks),
        joined(chunks) == encode_utf8(response_wire(response)).skip(k),
    ensures
        response_fed_each(response_progress_at(response, k), chunks) == response_progress_at(
            response,
            encode_utf8(response_wire(response)).len() as int,
        ),
    decreases chunks.len(),
{
    let bytes = encode_utf8(response_wire(response));
    if chunks.len() == 0 {
        assert(bytes.skip(k).len() == 0);
    } else {
        let n = chunks[0].len() as int;
        let rest = chunks.drop_first();
        lemma_first_chunk(bytes, k, chunks);
        lemma_response_step(response, k, n);
        assert(all_filled(rest)) by {
            assert forall|i: int| 0 <= i < rest.len() implies (#[trigger] rest[i]).len() > 0 by {
                assert(rest[i] == chunks[i + 1]);
            }
        }
        lemma_response_chunks(response, k + n, rest);
    }
}

/// When all the bytes of the wire form of `response` are there, the end of
/// the stream completes the response, if it is not complete already.
proof fn lemma_response_end(response: ResponseView)
    requires
        response_fits_stream(response),
    ensures
        response_fed(
            response_progress_at(response, encode_utf8(response_wire(response)).len() as int),
            Seq::empty(),
        ) == ResponseProgress::Done(response, Seq::empty()),
{
    let bytes = encode_utf8(response_wire(response));
    let p = utf8_len(response_head(response)) as int;
    law_response_round_trip(response);
    assert(bytes.subrange(p + 4, bytes.len() as int) =~= bytes.skip(p + 4));
    lemma_body_bytes(response.body);
    assert(ResponseView { body: response.body, ..bare_response(response) } == response);
}

/// After the first `k` bytes of the wire form of `response`, reading the
/// rest of it, one read after the other, completes the response.
proof fn lemma_response_reads(response: ResponseView, k: int)
    requires
        response_fits_stream(response),
        0 <= k <= encode_utf8(response_wire(response)).len(),
    ensures
        response_run(
            response_progress_at(response, k),
            encode_utf8(response_wire(response)).skip(k),
        ) == (
            ResponseProgress::Done(response, Seq::empty()),
            Seq::<u8>::empty(),
        ),
    decreases encode_utf8(response_wire(response)).len() - k,
{
    let bytes = encode_utf8(response_wire(response));
    let pending = bytes.skip(k);
    law_response_round_trip(response);
    if k == bytes.len() {
        assert(pending =~= Seq::<u8>::empty());
        assert(pending.take(0) =~= Seq::<u8>::empty());
        assert(Seq::<u8>::empty() + pending =~= pending);
        lemma_response_end(response);
        let done = ResponseProgress::Done(response, Seq::empty());
        assert(response_run(done, pending) == (done, pending));
    } else {
        let n = first_chunk_len(pending, RESPONSE_CHUNK as nat) as int;
        assert(pending.take(n) =~= bytes.subrange(k, k + n));
        assert(pending.skip(n) =~= bytes.skip(k + n));
        lemma_response_step(response, k, n);
        lemma_response_reads(response, k + n);
    }
}

/// Round trip under partial reads: a response that is fit for the wire,
/// with a body of the length that its headers declare, or of any length
/// where they declare none, is what it was once the bytes of its wire form
/// have arrived, in whatever chunks they arrive, and the stream has ended.
/// A character may be split between two chunks.
pub proof fn law_response_survives_any_chunking(response: ResponseView, chunks: Seq<Seq<u8>>)
    requires
        response_fits_stream(response),
        all_filled(chunks),
        joined(chunks) == encode_utf8(response_wire(response)),
    ensures
        response_fed(
            response_fed_each(ResponseProgress::Head(Seq::empty()), chunks),
            Seq::empty(),
        ) == ResponseProgress::Done(response, Seq::empty()),
{
    let bytes = encode_utf8(response_wire(response));
    law_response_round_trip(response);
    assert(bytes.take(0) =~= Seq::<u8>::empty());
    assert(bytes.skip(0) =~= bytes);
    lemma_response_chunks(response, 0, chunks);
    lemma_response_end(response);
}

/// Round trip through a stream of any length: a response that is fit for the
/// wire, with a body of the length that its headers declare, or of any length
/// where they declare none, is read from the stream of its bytes as it was, and
/// nothing is left unread.
pub proof fn law_response_survives_long_stream(response: ResponseView)
    requires
        response_fits_stream(response),
    ensures
        response_read(encode_utf8(response_wire(response))) == (
            ResponseProgress::Done(response, Seq::empty()),
            Seq::<u8>::empty(),
        ),
{
    let bytes = encode_utf8(response_wire(response));
    law_response_round_trip(response);
    assert(bytes.take(0) =~= Seq::<u8>::empty());
    assert(bytes.skip(0) =~= bytes);
    lemma_response_reads(response, 0);
}

/// Each chunk keeps the body within the declared length.
proof fn lemma_response_chunks_keep_within(state: ResponseProgress, chunks: Seq<Seq<u8>>)
    requires
        state.within_declared(),
    ensures
        response_fed_each(state, chunks).within_declared(),
    decreases chunks.len(),
{
    if chunks.len() > 0 {
        assert(state.held().skip(0) =~= state.held());
        lemma_response_fed(state, chunks[0], state.held());
        lemma_response_chunks_keep_within(response_fed(state, chunks[0]), chunks.drop_first());
    }
}

/// The body keeps within the declared length: whatever the bytes of a
/// stream are and in whatever chunks they arrive, a response that comes of
/// them has no more body bytes than its headers declare.
pub proof fn law_response_body_is_within_declared_length(chunks: Seq<Seq<u8>>)
    ensures
        response_fed_each(
            ResponseProgress::Head(Seq::empty()),
            chunks,
        ) matches ResponseProgress::Done(response, _) ==> body_within_declared(
            response.headers,
            response.body,
        ),
{
    lemma_response_chunks_keep_within(ResponseProgress::Head(Seq::empty()), chunks);
}

} // verus!
