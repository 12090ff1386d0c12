//! Stateless encoding and decoding of length-prefixed binary messages.
//!
//! Wire format: `[u32 length][payload]` repeated, length in little-endian
//! byte order and excluding the header. The payload is the encoded request
//! or response: `[u32 callback_index][u32 tag]` followed by the message
//! body — for a request, a sequence of length-prefixed byte-string
//! arguments; for a response, the raw payload bytes.

use vstd::prelude::*;
use crate::errors::ProtocolError;
use crate::protocol::{
    Request, RequestModel, Response, ResponseModel, request_of_tag, request_tag, response_of_tag,
    response_tag, spec_request_of_tag, spec_request_tag, spec_response_of_tag, spec_response_tag,
};

verus! {

/// Size of the frame header: the length prefix alone.
pub const HEADER_LENGTH_IN_BYTES: u32 = 4;

/// Largest frame payload the protocol accepts. A frame whose declared
/// length exceeds this is a fatal protocol error.
pub const MAX_FRAME_LENGTH: u32 = 1048576;

/// Little-endian bytes of a 32-bit value.
pub open spec fn u32_le_bytes(v: u32) -> Seq<u8> {
    seq![
        (v & 0xff) as u8,
        ((v >> 8) & 0xff) as u8,
        ((v >> 16) & 0xff) as u8,
        ((v >> 24) & 0xff) as u8,
    ]
}

/// The 32-bit value read from four little-endian bytes.
pub open spec fn u32_from_le(b0: u8, b1: u8, b2: u8, b3: u8) -> u32 {
    (b0 as u32) | ((b1 as u32) << 8) | ((b2 as u32) << 16) | ((b3 as u32) << 24)
}

/// Reading back the little-endian bytes of a value gives the value.
pub proof fn lemma_u32_le_round_trip(v: u32)
    ensures
        u32_from_le(
            (v & 0xff) as u8,
            ((v >> 8) & 0xff) as u8,
            ((v >> 16) & 0xff) as u8,
            ((v >> 24) & 0xff) as u8,
        ) == v,
{
    assert(((v & 0xff) as u8 as u32) | (((v >> 8) & 0xff) as u8 as u32) << 8
        | (((v >> 16) & 0xff) as u8 as u32) << 16 | (((v >> 24) & 0xff) as u8 as u32) << 24
        == v) by (bit_vector);
}

/// A frame around a payload: the length prefix followed by the payload.
pub open spec fn spec_encode_frame(payload: Seq<u8>) -> Seq<u8> {
    u32_le_bytes(payload.len() as u32) + payload
}

/// The length a byte stream's first frame declares.
pub open spec fn spec_declared_len(b: Seq<u8>) -> int
    recommends
        b.len() >= 4,
{
    u32_from_le(b[0], b[1], b[2], b[3]) as int
}

/// The stream begins with a complete frame within the size limit.
pub open spec fn spec_has_frame(b: Seq<u8>) -> bool {
    &&& b.len() >= 4
    &&& spec_declared_len(b) <= MAX_FRAME_LENGTH
    &&& 4 + spec_declared_len(b) <= b.len()
}

/// The stream declares a frame longer than the configured maximum.
pub open spec fn spec_frame_too_large(b: Seq<u8>) -> bool {
    b.len() >= 4 && spec_declared_len(b) > MAX_FRAME_LENGTH
}

/// Payload of the stream's first frame.
pub open spec fn spec_frame_payload(b: Seq<u8>) -> Seq<u8>
    recommends
        spec_has_frame(b),
{
    b.subrange(4, 4 + spec_declared_len(b))
}

/// A length prefix at the front of a stream reads back as the value it
/// was written from, and the rest of the stream follows it unchanged.
pub proof fn lemma_le_header(n: u32, tail: Seq<u8>)
    ensures
        (u32_le_bytes(n) + tail).len() == 4 + tail.len(),
        u32_from_le(
            (u32_le_bytes(n) + tail)[0],
            (u32_le_bytes(n) + tail)[1],
            (u32_le_bytes(n) + tail)[2],
            (u32_le_bytes(n) + tail)[3],
        ) == n,
        (u32_le_bytes(n) + tail).skip(4) == tail,
{
    let b = u32_le_bytes(n) + tail;
    lemma_u32_le_round_trip(n);
    assert(b[0] == (n & 0xff) as u8);
    assert(b[1] == ((n >> 8) & 0xff) as u8);
    assert(b[2] == ((n >> 16) & 0xff) as u8);
    assert(b[3] == ((n >> 24) & 0xff) as u8);
    assert(b.skip(4) =~= tail);
}

/// A framed payload at the front of a stream is found again whole: the
/// declared length is the payload's length, the extracted payload is
/// byte-identical, and exactly the frame's bytes are consumed.
pub proof fn lemma_frame_prefix(payload: Seq<u8>, rest: Seq<u8>)
    requires
        payload.len() <= MAX_FRAME_LENGTH,
    ensures
        spec_has_frame(spec_encode_frame(payload) + rest),
        spec_frame_payload(spec_encode_frame(payload) + rest) == payload,
        (spec_encode_frame(payload) + rest).skip(4 + payload.len() as int) == rest,
{
    let b = spec_encode_frame(payload) + rest;
    let n = payload.len() as u32;
    assert(b =~= u32_le_bytes(n) + (payload + rest));
    lemma_le_header(n, payload + rest);
    assert(spec_declared_len(b) == payload.len());
    assert(spec_frame_payload(b) =~= payload);
    assert(b.skip(4 + payload.len() as int) =~= rest);
}

/// All complete frames at the front of a byte stream, in order; stops at
/// the first incomplete or oversized frame.
pub open spec fn spec_frames_of(b: Seq<u8>) -> Seq<Seq<u8>>
    decreases b.len(),
{
    if spec_has_frame(b) {
        seq![spec_frame_payload(b)] + spec_frames_of(b.skip(4 + spec_declared_len(b)))
    } else {
        Seq::empty()
    }
}

/// Concatenation of framed payloads.
pub open spec fn spec_encode_frames(payloads: Seq<Seq<u8>>) -> Seq<u8>
    decreases payloads.len(),
{
    if payloads.len() == 0 {
        Seq::empty()
    } else {
        spec_encode_frame(payloads[0]) + spec_encode_frames(payloads.drop_first())
    }
}

/// A byte stream holding exactly N framed payloads, however it was split
/// when it arrived, yields exactly those N payloads, in order and
/// byte-identical.
pub proof fn lemma_frames_round_trip(payloads: Seq<Seq<u8>>)
    requires
        forall|i: int| 0 <= i < payloads.len() ==> #[trigger] payloads[i].len() <= MAX_FRAME_LENGTH,
    ensures
        spec_frames_of(spec_encode_frames(payloads)) == payloads,
    decreases payloads.len(),
{
    if payloads.len() == 0 {
        assert(!spec_has_frame(Seq::<u8>::empty()));
        assert(spec_frames_of(spec_encode_frames(payloads)) =~= payloads);
    } else {
        let head = payloads[0];
        let rest = spec_encode_frames(payloads.drop_first());
        lemma_frame_prefix(head, rest);
        lemma_frames_round_trip(payloads.drop_first());
        assert(spec_frames_of(spec_encode_frame(head) + rest)
            == seq![head] + payloads.drop_first());
        assert(seq![head] + payloads.drop_first() =~= payloads);
    }
}

/// Encoding of a request's arguments: each argument as its length prefix
/// followed by its bytes, in order.
pub open spec fn spec_encode_args(args: Seq<Seq<u8>>) -> Seq<u8>
    decreases args.len(),
{
    if args.len() == 0 {
        Seq::empty()
    } else {
        u32_le_bytes(args[0].len() as u32) + args[0] + spec_encode_args(args.drop_first())
    }
}

/// Encoded size of a request's arguments.
pub open spec fn spec_args_len(args: Seq<Seq<u8>>) -> nat
    decreases args.len(),
{
    if args.len() == 0 {
        0
    } else {
        4 + args[0].len() + spec_args_len(args.drop_first())
    }
}

/// Decoding of an argument section: `None` when the bytes are not a
/// well-formed sequence of length-prefixed byte strings.
pub open spec fn spec_decode_args(b: Seq<u8>) -> Option<Seq<Seq<u8>>>
    decreases b.len(),
{
    if b.len() == 0 {
        Some(Seq::empty())
    } else if b.len() < 4 {
        None
    } else {
        let n = u32_from_le(b[0], b[1], b[2], b[3]) as int;
        if 4 + n > b.len() {
            None
        } else {
            match spec_decode_args(b.skip(4 + n)) {
                None => None,
                Some(rest) => Some(seq![b.subrange(4, 4 + n)] + rest),
            }
        }
    }
}

/// Appending one argument appends its length prefix and bytes.
pub proof fn lemma_encode_args_push(args: Seq<Seq<u8>>, x: Seq<u8>)
    ensures
        spec_encode_args(args.push(x)) == spec_encode_args(args) + u32_le_bytes(
            x.len() as u32,
        ) + x,
        spec_args_len(args.push(x)) == spec_args_len(args) + 4 + x.len(),
    decreases args.len(),
{
    if args.len() == 0 {
        assert(args.push(x).drop_first() =~= args);
        assert(args.push(x)[0] == x);
        assert(spec_encode_args(args.push(x)) =~= spec_encode_args(args) + u32_le_bytes(
            x.len() as u32,
        ) + x);
    } else {
        assert(args.push(x).drop_first() =~= args.drop_first().push(x));
        lemma_encode_args_push(args.drop_first(), x);
        assert(spec_encode_args(args.push(x)) =~= spec_encode_args(args) + u32_le_bytes(
            x.len() as u32,
        ) + x);
    }
}

/// The encoded argument section has exactly the encoded size.
pub proof fn lemma_encode_args_len(args: Seq<Seq<u8>>)
    ensures
        spec_encode_args(args).len() == spec_args_len(args),
    decreases args.len(),
{
    if args.len() > 0 {
        lemma_encode_args_len(args.drop_first());
    }
}

/// A prefix of the arguments never encodes longer than the whole.
pub proof fn lemma_args_len_prefix(args: Seq<Seq<u8>>, i: int)
    requires
        0 <= i <= args.len(),
    ensures
        spec_args_len(args.take(i)) <= spec_args_len(args),
    decreases args.len() - i,
{
    if i < args.len() {
        lemma_args_len_prefix(args, i + 1);
        assert(args.take(i + 1) =~= args.take(i).push(args[i]));
        lemma_encode_args_push(args.take(i), args[i]);
    } else {
        assert(args.take(i) =~= args);
    }
}

/// Every argument fits in its own length prefix when the section fits in
/// a frame.
pub proof fn lemma_arg_len_bound(args: Seq<Seq<u8>>, i: int)
    requires
        0 <= i < args.len(),
    ensures
        args[i].len() + 4 <= spec_args_len(args),
    decreases i,
{
    if i == 0 {
        lemma_args_len_nonneg(args.drop_first());
    } else {
        lemma_arg_len_bound(args.drop_first(), i - 1);
        assert(args.drop_first()[i - 1] == args[i]);
    }
}

/// The encoded size is never negative (it is a sum of sizes).
pub proof fn lemma_args_len_nonneg(args: Seq<Seq<u8>>)
    ensures
        spec_args_len(args) >= 0,
{
}

/// Decoding an encoded argument section gives back the arguments.
pub proof fn lemma_args_round_trip(args: Seq<Seq<u8>>)
    requires
        forall|i: int| 0 <= i < args.len() ==> #[trigger] args[i].len() <= 0xffffffff,
    ensures
        spec_decode_args(spec_encode_args(args)) == Some(args),
    decreases args.len(),
{
    if args.len() == 0 {
        assert(spec_decode_args(spec_encode_args(args)) =~= Some(args));
    } else {
        let head = args[0];
        let rest = spec_encode_args(args.drop_first());
        let b = spec_encode_args(args);
        let n = head.len() as u32;
        assert(b =~= u32_le_bytes(n) + (head + rest));
        lemma_le_header(n, head + rest);
        assert(u32_from_le(b[0], b[1], b[2], b[3]) == head.len());
        assert(b.len() >= 4 + head.len());
        assert(b.subrange(4, 4 + head.len() as int) =~= head);
        assert(b.skip(4 + head.len() as int) =~= rest);
        lemma_args_round_trip(args.drop_first());
        assert(seq![head] + args.drop_first() =~= args);
    }
}

/// Encoded body of a request: callback index, tag, then the arguments.
pub open spec fn spec_encode_request(r: RequestModel) -> Seq<u8> {
    u32_le_bytes(r.callback_index) + u32_le_bytes(spec_request_tag(r.request_type))
        + spec_encode_args(r.args)
}

/// Encoded body of a response: callback index, tag, then the payload.
pub open spec fn spec_encode_response(r: ResponseModel) -> Seq<u8> {
    u32_le_bytes(r.callback_index) + u32_le_bytes(spec_response_tag(r.response_type)) + r.payload
}

/// A request whose encoded body fits in one frame.
pub open spec fn valid_request(r: RequestModel) -> bool {
    8 + spec_args_len(r.args) <= MAX_FRAME_LENGTH
}

/// A response whose encoded body fits in one frame.
pub open spec fn valid_response(r: ResponseModel) -> bool {
    8 + r.payload.len() <= MAX_FRAME_LENGTH
}

/// Decoding of a request body, mirrored by `decode_request`.
pub open spec fn spec_decode_request(b: Seq<u8>) -> Option<RequestModel> {
    if b.len() < 8 {
        None
    } else {
        match spec_request_of_tag(u32_from_le(b[4], b[5], b[6], b[7])) {
            None => None,
            Some(rt) => match spec_decode_args(b.skip(8)) {
                None => None,
                Some(args) => Some(
                    RequestModel {
                        callback_index: u32_from_le(b[0], b[1], b[2], b[3]),
                        request_type: rt,
                        args,
                    },
                ),
            },
        }
    }
}

/// Decoding of a response body, mirrored by `decode_response`.
pub open spec fn spec_decode_response(b: Seq<u8>) -> Option<ResponseModel> {
    if b.len() < 8 {
        None
    } else {
        match spec_response_of_tag(u32_from_le(b[4], b[5], b[6], b[7])) {
            None => None,
            Some(rt) => Some(
                ResponseModel {
                    callback_index: u32_from_le(b[0], b[1], b[2], b[3]),
                    response_type: rt,
                    payload: b.skip(8),
                },
            ),
        }
    }
}

/// Which protocol error decoding a request body reports, if any.
pub open spec fn spec_request_decode_error(b: Seq<u8>) -> Option<ProtocolError> {
    if b.len() < 8 {
        Some(ProtocolError::MessageTooShort)
    } else if spec_request_of_tag(u32_from_le(b[4], b[5], b[6], b[7])) is None {
        Some(ProtocolError::UnknownRequestTag)
    } else if spec_decode_args(b.skip(8)) is None {
        Some(ProtocolError::MalformedArguments)
    } else {
        None
    }
}

/// Which protocol error decoding a response body reports, if any.
pub open spec fn spec_response_decode_error(b: Seq<u8>) -> Option<ProtocolError> {
    if b.len() < 8 {
        Some(ProtocolError::MessageTooShort)
    } else if spec_response_of_tag(u32_from_le(b[4], b[5], b[6], b[7])) is None {
        Some(ProtocolError::UnknownResponseTag)
    } else {
        None
    }
}

/// Appends the little-endian bytes of a 32-bit value.
pub fn write_u32_le(out: &mut Vec<u8>, v: u32)
    ensures
        final(out)@ == old(out)@ + u32_le_bytes(v),
{
    out.push((v & 0xff) as u8);
    out.push(((v >> 8) & 0xff) as u8);
    out.push(((v >> 16) & 0xff) as u8);
    out.push(((v >> 24) & 0xff) as u8);
    assert(out@ =~= old(out)@ + u32_le_bytes(v));
}

/// Reads a 32-bit value from four little-endian bytes.
pub fn read_u32_le(b: &Vec<u8>, pos: usize) -> (r: u32)
    requires
        pos + 4 <= b@.len(),
    ensures
        r == u32_from_le(b@[pos as int], b@[pos + 1], b@[pos + 2], b@[pos + 3]),
{
    let l: usize = b.len();
    assert(pos + 4 <= l);
    let b0 = b[pos];
    let b1 = b[pos + 1];
    let b2 = b[pos + 2];
    let b3 = b[pos + 3];
    proof {
        assert(((b1 as u32) << 8) <= 0xff00 && ((b2 as u32) << 16) <= 0xff0000 && ((b3 as u32)
            << 24) <= 0xff000000) by (bit_vector);
    }
    (b0 as u32) | ((b1 as u32) << 8) | ((b2 as u32) << 16) | ((b3 as u32) << 24)
}

/// Deep view of a byte vector is its view.
pub proof fn lemma_bytes_deep_view(v: Vec<u8>)
    ensures
        v.deep_view() == v@,
{
    assert(v.deep_view() =~= v@);
}

/// Deep view of an argument vector, element by element.
pub proof fn lemma_args_deep_view_index(args: Vec<Vec<u8>>, i: int)
    requires
        0 <= i < args@.len(),
    ensures
        args.deep_view()[i] == args@[i]@,
{
    lemma_bytes_deep_view(args@[i]);
}

/// Appends all of `bytes` to `out`.
pub fn push_bytes(out: &mut Vec<u8>, bytes: &Vec<u8>)
    ensures
        final(out)@ == old(out)@ + bytes@,
{
    let mut j: usize = 0;
    while j < bytes.len()
        invariant
            j <= bytes@.len(),
            out@ == old(out)@ + bytes@.take(j as int),
        decreases bytes@.len() - j,
    {
        out.push(bytes[j]);
        assert(out@ =~= old(out)@ + bytes@.take(j + 1));
        j = j + 1;
    }
    assert(out@ =~= old(out)@ + bytes@);
}

/// Copies the bytes of `src` between `start` and `end` into a new vector.
pub fn copy_range(src: &Vec<u8>, start: usize, end: usize) -> (out: Vec<u8>)
    requires
        start <= end <= src@.len(),
    ensures
        out@ == src@.subrange(start as int, end as int),
{
    let mut out: Vec<u8> = Vec::new();
    let mut j: usize = start;
    while j < end
        invariant
            start <= j <= end <= src@.len(),
            out@ == src@.subrange(start as int, j as int),
        decreases end - j,
    {
        out.push(src[j]);
        assert(out@ =~= src@.subrange(start as int, j + 1));
        j = j + 1;
    }
    out
}

/// Encodes a request into one complete frame: the length prefix followed
/// by the encoded body. A request whose body would exceed the maximum
/// frame length is rejected.
pub fn encode_request(r: &Request) -> (res: Result<Vec<u8>, ProtocolError>)
    ensures
        valid_request(r@) ==> (res matches Ok(bytes) && bytes@ == spec_encode_frame(
            spec_encode_request(r@),
        )),
        !valid_request(r@) ==> res == Err::<Vec<u8>, ProtocolError>(ProtocolError::FrameTooLarge),
{
    let ghost args = r@.args;
    let mut body_len: usize = 8;
    let mut i: usize = 0;
    while i < r.args.len()
        invariant
            i <= r.args@.len(),
            args == r@.args,
            args.len() == r.args@.len(),
            body_len == 8 + spec_args_len(args.take(i as int)),
            body_len <= MAX_FRAME_LENGTH,
        decreases r.args@.len() - i,
    {
        let a_len = r.args[i].len();
        proof {
            lemma_args_deep_view_index(r.args, i as int);
        }
        proof {
            assert(args.take(i + 1) =~= args.take(i as int).push(args[i as int]));
            lemma_encode_args_push(args.take(i as int), args[i as int]);
        }
        if a_len >= (MAX_FRAME_LENGTH as usize) || body_len + 4 + a_len
            > (MAX_FRAME_LENGTH as usize) {
            proof {
                lemma_args_len_prefix(args, i + 1);
            }
            return Err(ProtocolError::FrameTooLarge);
        }
        body_len = body_len + 4 + a_len;
        i = i + 1;
    }
    proof {
        assert(args.take(args.len() as int) =~= args);
        assert forall|k: int| 0 <= k < args.len() implies #[trigger] args[k].len()
            < MAX_FRAME_LENGTH by {
            lemma_arg_len_bound(args, k);
        }
    }
    let mut out: Vec<u8> = Vec::new();
    write_u32_le(&mut out, body_len as u32);
    write_u32_le(&mut out, r.callback_index);
    write_u32_le(&mut out, request_tag(r.request_type));
    let ghost prefix = u32_le_bytes(body_len as u32) + u32_le_bytes(r.callback_index)
        + u32_le_bytes(spec_request_tag(r.request_type));
    assert(out@ =~= prefix);
    let mut i: usize = 0;
    while i < r.args.len()
        invariant
            i <= r.args@.len(),
            args == r@.args,
            args.len() == r.args@.len(),
            out@ == prefix + spec_encode_args(args.take(i as int)),
            forall|k: int| 0 <= k < args.len() ==> #[trigger] args[k].len() < MAX_FRAME_LENGTH,
        decreases r.args@.len() - i,
    {
        let arg = &r.args[i];
        proof {
            lemma_args_deep_view_index(r.args, i as int);
        }
        assert(arg@ == args[i as int]);
        write_u32_le(&mut out, arg.len() as u32);
        push_bytes(&mut out, arg);
        proof {
            assert(args.take(i + 1) =~= args.take(i as int).push(args[i as int]));
            lemma_encode_args_push(args.take(i as int), args[i as int]);
            assert(out@ =~= prefix + spec_encode_args(args.take(i + 1)));
        }
        i = i + 1;
    }
    proof {
        assert(args.take(args.len() as int) =~= args);
        lemma_encode_args_len(args);
        assert(out@ =~= spec_encode_frame(spec_encode_request(r@)));
    }
    Ok(out)
}

/// Encodes a response into one complete frame: the length prefix followed
/// by the encoded body. A response whose payload would exceed the maximum
/// frame length is rejected.
pub fn encode_response(r: &Response) -> (res: Result<Vec<u8>, ProtocolError>)
    ensures
        valid_response(r@) ==> (res matches Ok(bytes) && bytes@ == spec_encode_frame(
            spec_encode_response(r@),
        )),
        !valid_response(r@) ==> res == Err::<Vec<u8>, ProtocolError>(ProtocolError::FrameTooLarge),
{
    if r.payload.len() > (MAX_FRAME_LENGTH as usize) - 8 {
        return Err(ProtocolError::FrameTooLarge);
    }
    let body_len: usize = 8 + r.payload.len();
    let mut out: Vec<u8> = Vec::new();
    write_u32_le(&mut out, body_len as u32);
    write_u32_le(&mut out, r.callback_index);
    write_u32_le(&mut out, response_tag(r.response_type));
    push_bytes(&mut out, &r.payload);
    assert(out@ =~= spec_encode_frame(spec_encode_response(r@)));
    Ok(out)
}

/// Decodes a request body. Fails exactly on a body shorter than its
/// header, an unknown request tag, or a malformed argument section.
pub fn decode_request(payload: &Vec<u8>) -> (res: Result<Request, ProtocolError>)
    ensures
        match res {
            Ok(req) => spec_decode_request(payload@) == Some(req@),
            Err(e) => spec_request_decode_error(payload@) == Some(e),
        },
{
    if payload.len() < 8 {
        return Err(ProtocolError::MessageTooShort);
    }
    let callback_index = read_u32_le(payload, 0);
    let tag = read_u32_le(payload, 4);
    let request_type = match request_of_tag(tag) {
        Some(rt) => rt,
        None => {
            return Err(ProtocolError::UnknownRequestTag);
        },
    };
    let mut args: Vec<Vec<u8>> = Vec::new();
    let mut pos: usize = 8;
    while pos < payload.len()
        invariant
            8 <= pos <= payload@.len(),
            payload@.len() >= 8,
            callback_index == u32_from_le(payload@[0], payload@[1], payload@[2], payload@[3]),
            Some(request_type) == spec_request_of_tag(
                u32_from_le(payload@[4], payload@[5], payload@[6], payload@[7]),
            ),
            forall|rest: Seq<Seq<u8>>|
                spec_decode_args(payload@.skip(pos as int)) == Some(rest)
                    ==> spec_decode_args(payload@.skip(8)) == Some(args.deep_view() + rest),
            spec_decode_args(payload@.skip(pos as int)) is None ==> spec_decode_args(
                payload@.skip(8),
            ) is None,
        decreases payload@.len() - pos,
    {
        let ghost here = payload@.skip(pos as int);
        if payload.len() - pos < 4 {
            assert(here.len() < 4 && here.len() > 0);
            assert(spec_decode_args(here) is None);
            return Err(ProtocolError::MalformedArguments);
        }
        let n32 = read_u32_le(payload, pos);
        assert(here[0] == payload@[pos as int] && here[1] == payload@[pos + 1] && here[2]
            == payload@[pos + 2] && here[3] == payload@[pos + 3]);
        let ghost n_spec = u32_from_le(here[0], here[1], here[2], here[3]) as int;
        assert(n_spec == n32 as int);
        if (n32 as usize) > payload.len() - pos - 4 {
            assert(4 + n_spec > here.len());
            assert(spec_decode_args(here) is None);
            assert(spec_decode_args(payload@.skip(8)) is None);
            assert(spec_request_decode_error(payload@) == Some(ProtocolError::MalformedArguments));
            return Err(ProtocolError::MalformedArguments);
        }
        let n = n32 as usize;
        let chunk = copy_range(payload, pos + 4, pos + 4 + n);
        assert(chunk@ =~= here.subrange(4, 4 + n_spec));
        let ghost old_args = args.deep_view();
        let ghost pre = args@;
        args.push(chunk);
        proof {
            lemma_bytes_deep_view(chunk);
            assert(args@ == pre.push(chunk));
            assert forall|k: int| 0 <= k < args@.len() implies args.deep_view()[k]
                == old_args.push(chunk@)[k] by {
                if k < args@.len() - 1 {
                    assert(args@[k] == pre[k]);
                } else {
                    assert(args@[k] == chunk);
                }
            }
            assert(args.deep_view() =~= old_args.push(chunk@));
        }
        proof {
            assert(here.skip(4 + n_spec) =~= payload@.skip(pos + 4 + n));
            assert(spec_decode_args(here) == match spec_decode_args(here.skip(4 + n_spec)) {
                None => None::<Seq<Seq<u8>>>,
                Some(rest) => Some(seq![here.subrange(4, 4 + n_spec)] + rest),
            });
            assert forall|rest: Seq<Seq<u8>>|
                spec_decode_args(payload@.skip(pos + 4 + n)) == Some(rest) implies spec_decode_args(
                payload@.skip(8),
            ) == Some(args.deep_view() + rest) by {
                assert(spec_decode_args(here) == Some(seq![chunk@] + rest));
                assert(old_args + (seq![chunk@] + rest) =~= args.deep_view() + rest);
            }
        }
        pos = pos + 4 + n;
    }
    proof {
        assert(payload@.skip(pos as int) =~= Seq::<u8>::empty());
        assert(spec_decode_args(payload@.skip(pos as int)) == Some(Seq::<Seq<u8>>::empty()));
        assert(args.deep_view() + Seq::<Seq<u8>>::empty() =~= args.deep_view());
    }
    let req = Request { callback_index, request_type, args };
    assert(spec_decode_request(payload@) == Some(req@));
    Ok(req)
}

/// Decodes a response body. Fails exactly on a body shorter than its
/// header or an unknown response tag.
pub fn decode_response(payload: &Vec<u8>) -> (res: Result<Response, ProtocolError>)
    ensures
        match res {
            Ok(resp) => spec_decode_response(payload@) == Some(resp@),
            Err(e) => spec_response_decode_error(payload@) == Some(e),
        },
{
    if payload.len() < 8 {
        return Err(ProtocolError::MessageTooShort);
    }
    let callback_index = read_u32_le(payload, 0);
    let tag = read_u32_le(payload, 4);
    let response_type = match response_of_tag(tag) {
        Some(rt) => rt,
        None => {
            return Err(ProtocolError::UnknownResponseTag);
        },
    };
    let body = copy_range(payload, 8, payload.len());
    assert(body@ =~= payload@.skip(8));
    let resp = Response { callback_index, response_type, payload: body };
    Ok(resp)
}

/// Decoding an encoded request body gives back the request.
pub proof fn lemma_request_round_trip(r: RequestModel)
    requires
        valid_request(r),
    ensures
        spec_decode_request(spec_encode_request(r)) == Some(r),
{
    let b = spec_encode_request(r);
    let tag = spec_request_tag(r.request_type);
    let tail = u32_le_bytes(tag) + spec_encode_args(r.args);
    assert(b =~= u32_le_bytes(r.callback_index) + tail);
    lemma_le_header(r.callback_index, tail);
    lemma_le_header(tag, spec_encode_args(r.args));
    assert(b.skip(4) == tail);
    assert(b[4] == tail[0] && b[5] == tail[1] && b[6] == tail[2] && b[7] == tail[3]);
    assert(u32_from_le(b[4], b[5], b[6], b[7]) == tag);
    assert(b.skip(8) =~= spec_encode_args(r.args));
    assert forall|i: int| 0 <= i < r.args.len() implies #[trigger] r.args[i].len()
        <= 0xffffffff by {
        lemma_arg_len_bound(r.args, i);
    }
    lemma_args_round_trip(r.args);
}

/// Decoding an encoded response body gives back the response.
pub proof fn lemma_response_round_trip(r: ResponseModel)
    requires
        valid_response(r),
    ensures
        spec_decode_response(spec_encode_response(r)) == Some(r),
{
    let b = spec_encode_response(r);
    let tag = spec_response_tag(r.response_type);
    let tail = u32_le_bytes(tag) + r.payload;
    assert(b =~= u32_le_bytes(r.callback_index) + tail);
    lemma_le_header(r.callback_index, tail);
    lemma_le_header(tag, r.payload);
    assert(b.skip(4) == tail);
    assert(b[4] == tail[0] && b[5] == tail[1] && b[6] == tail[2] && b[7] == tail[3]);
    assert(u32_from_le(b[4], b[5], b[6], b[7]) == tag);
    assert(b.skip(8) =~= r.payload);
}

} // verus!
