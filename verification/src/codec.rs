//! Wire format of the relay protocol: length-prefixed frames, each carrying
//! one versioned message — a reservation request, a connect request, or a
//! status answer. Frames above a fixed ceiling are refused outright, so a
//! remote peer can never make the relay buffer an unbounded message. The
//! codec is lossless: decoding an encoded message yields the message back.

use vstd::prelude::*;

use crate::types::DenyReason;
use crate::types::PeerId;
use crate::types::Status;

verus! {

/// Version byte every message opens with.
pub const WIRE_VERSION: u8 = 1;

/// Message kind: reservation request, `RESERVE(ttl)`.
pub const KIND_RESERVE: u8 = 1;

/// Message kind: connect request, `CONNECT(dst, duration)`.
pub const KIND_CONNECT: u8 = 2;

/// Message kind: status answer, `STATUS(code)`.
pub const KIND_STATUS: u8 = 3;

/// Largest payload a frame may carry.
pub const MAX_FRAME_LEN: u32 = 1024;

pub const STATUS_OK: u8 = 0;

pub const STATUS_RATE_LIMITED: u8 = 1;

pub const STATUS_NO_RESERVATION: u8 = 2;

pub const STATUS_CAPACITY_EXCEEDED: u8 = 3;

pub const STATUS_TTL_REJECTED: u8 = 4;

pub const STATUS_MALFORMED: u8 = 5;

/// A decoded request, as read off the wire.
#[derive(Clone, Copy, PartialEq, Eq, Structural, Debug)]
pub enum Request {
    Reserve { ttl: u32 },
    Connect { dst: PeerId, duration: u32 },
}

/// Why a frame could not be taken off a buffer: more bytes are needed, or the
/// announced length breaks the ceiling (a protocol violation that terminates
/// the stream).
#[derive(Clone, Copy, PartialEq, Eq, Structural, Debug)]
pub enum FrameError {
    Incomplete,
    Oversized,
}

/// Big-endian bytes of a 32-bit value.
pub open spec fn u32_be_bytes(x: u32) -> Seq<u8> {
    seq![
        ((x >> 24) & 0xff) as u8,
        ((x >> 16) & 0xff) as u8,
        ((x >> 8) & 0xff) as u8,
        (x & 0xff) as u8,
    ]
}

/// The 32-bit value read from four big-endian bytes.
pub open spec fn u32_from_be(b0: u8, b1: u8, b2: u8, b3: u8) -> u32 {
    ((b0 as u32) << 24) | ((b1 as u32) << 16) | ((b2 as u32) << 8) | (b3 as u32)
}

/// Big-endian bytes of a 64-bit value.
pub open spec fn u64_be_bytes(x: u64) -> Seq<u8> {
    seq![
        ((x >> 56) & 0xff) as u8,
        ((x >> 48) & 0xff) as u8,
        ((x >> 40) & 0xff) as u8,
        ((x >> 32) & 0xff) as u8,
        ((x >> 24) & 0xff) as u8,
        ((x >> 16) & 0xff) as u8,
        ((x >> 8) & 0xff) as u8,
        (x & 0xff) as u8,
    ]
}

/// The 64-bit value read from eight big-endian bytes.
pub open spec fn u64_from_be(
    b0: u8,
    b1: u8,
    b2: u8,
    b3: u8,
    b4: u8,
    b5: u8,
    b6: u8,
    b7: u8,
) -> u64 {
    ((b0 as u64) << 56) | ((b1 as u64) << 48) | ((b2 as u64) << 40) | ((b3 as u64) << 32) | ((
    b4 as u64) << 24) | ((b5 as u64) << 16) | ((b6 as u64) << 8) | (b7 as u64)
}

/// Reading back the big-endian bytes of a 32-bit value yields the value.
pub proof fn lemma_u32_be_round_trip(x: u32)
    ensures
        u32_from_be(
            ((x >> 24) & 0xff) as u8,
            ((x >> 16) & 0xff) as u8,
            ((x >> 8) & 0xff) as u8,
            (x & 0xff) as u8,
        ) == x,
{
    assert(((((x >> 24) & 0xff) as u8 as u32) << 24) | ((((x >> 16) & 0xff) as u8 as u32) << 16)
        | ((((x >> 8) & 0xff) as u8 as u32) << 8) | (((x & 0xff) as u8 as u32)) == x)
        by (bit_vector);
}

/// Reading back the big-endian bytes of a 64-bit value yields the value.
pub proof fn lemma_u64_be_round_trip(x: u64)
    ensures
        u64_from_be(
            ((x >> 56) & 0xff) as u8,
            ((x >> 48) & 0xff) as u8,
            ((x >> 40) & 0xff) as u8,
            ((x >> 32) & 0xff) as u8,
            ((x >> 24) & 0xff) as u8,
            ((x >> 16) & 0xff) as u8,
            ((x >> 8) & 0xff) as u8,
            (x & 0xff) as u8,
        ) == x,
{
    assert(((((x >> 56) & 0xff) as u8 as u64) << 56) | ((((x >> 48) & 0xff) as u8 as u64) << 48)
        | ((((x >> 40) & 0xff) as u8 as u64) << 40) | ((((x >> 32) & 0xff) as u8 as u64) << 32) | ((
    ((x >> 24) & 0xff) as u8 as u64) << 24) | ((((x >> 16) & 0xff) as u8 as u64) << 16) | ((((x
        >> 8) & 0xff) as u8 as u64) << 8) | (((x & 0xff) as u8 as u64)) == x) by (bit_vector);
}

/// The bytes of a request message.
pub open spec fn spec_encode_request(r: Request) -> Seq<u8> {
    match r {
        Request::Reserve { ttl } => seq![WIRE_VERSION, KIND_RESERVE] + u32_be_bytes(ttl),
        Request::Connect { dst, duration } => seq![WIRE_VERSION, KIND_CONNECT] + u64_be_bytes(
            dst.0,
        ) + u32_be_bytes(duration),
    }
}

/// The request read from a payload: exactly a versioned reserve or connect
/// message of the right length, anything else is malformed.
pub open spec fn spec_decode_request(b: Seq<u8>) -> Option<Request> {
    if b.len() == 6 && b[0] == WIRE_VERSION && b[1] == KIND_RESERVE {
        Some(Request::Reserve { ttl: u32_from_be(b[2], b[3], b[4], b[5]) })
    } else if b.len() == 14 && b[0] == WIRE_VERSION && b[1] == KIND_CONNECT {
        Some(
            Request::Connect {
                dst: PeerId(u64_from_be(b[2], b[3], b[4], b[5], b[6], b[7], b[8], b[9])),
                duration: u32_from_be(b[10], b[11], b[12], b[13]),
            },
        )
    } else {
        None
    }
}

/// The status code of a status message.
pub open spec fn status_code(s: Status) -> u8 {
    match s {
        Status::Accepted => STATUS_OK,
        Status::Denied(DenyReason::RateLimited) => STATUS_RATE_LIMITED,
        Status::Denied(DenyReason::NoReservation) => STATUS_NO_RESERVATION,
        Status::Denied(DenyReason::CapacityExceeded) => STATUS_CAPACITY_EXCEEDED,
        Status::Denied(DenyReason::TtlRejected) => STATUS_TTL_REJECTED,
        Status::MalformedRequest => STATUS_MALFORMED,
    }
}

/// The status named by a code, if any.
pub open spec fn spec_status_of_code(c: u8) -> Option<Status> {
    if c == STATUS_OK {
        Some(Status::Accepted)
    } else if c == STATUS_RATE_LIMITED {
        Some(Status::Denied(DenyReason::RateLimited))
    } else if c == STATUS_NO_RESERVATION {
        Some(Status::Denied(DenyReason::NoReservation))
    } else if c == STATUS_CAPACITY_EXCEEDED {
        Some(Status::Denied(DenyReason::CapacityExceeded))
    } else if c == STATUS_TTL_REJECTED {
        Some(Status::Denied(DenyReason::TtlRejected))
    } else if c == STATUS_MALFORMED {
        Some(Status::MalformedRequest)
    } else {
        None
    }
}

/// The bytes of a status message.
pub open spec fn spec_encode_status(s: Status) -> Seq<u8> {
    seq![WIRE_VERSION, KIND_STATUS, status_code(s)]
}

/// The status read from a payload.
pub open spec fn spec_decode_status(b: Seq<u8>) -> Option<Status> {
    if b.len() == 3 && b[0] == WIRE_VERSION && b[1] == KIND_STATUS {
        spec_status_of_code(b[2])
    } else {
        None
    }
}

/// A framed payload: its length in four big-endian bytes, then the payload.
pub open spec fn spec_frame(payload: Seq<u8>) -> Seq<u8> {
    u32_be_bytes(payload.len() as u32) + payload
}

/// Decoding an encoded request yields the request back.
pub proof fn lemma_request_round_trip(r: Request)
    ensures
        spec_decode_request(spec_encode_request(r)) == Some(r),
{
    match r {
        Request::Reserve { ttl } => {
            let e = spec_encode_request(r);
            assert(e.len() == 6);
            assert(e[0] == WIRE_VERSION && e[1] == KIND_RESERVE);
            assert(e[2] == ((ttl >> 24) & 0xff) as u8 && e[3] == ((ttl >> 16) & 0xff) as u8 && e[4]
                == ((ttl >> 8) & 0xff) as u8 && e[5] == (ttl & 0xff) as u8);
            lemma_u32_be_round_trip(ttl);
        },
        Request::Connect { dst, duration } => {
            let e = spec_encode_request(r);
            assert(e.len() == 14);
            assert(e[0] == WIRE_VERSION && e[1] == KIND_CONNECT);
            lemma_u64_be_round_trip(dst.0);
            lemma_u32_be_round_trip(duration);
            assert(e[2] == ((dst.0 >> 56) & 0xff) as u8 && e[3] == ((dst.0 >> 48) & 0xff) as u8
                && e[4] == ((dst.0 >> 40) & 0xff) as u8 && e[5] == ((dst.0 >> 32) & 0xff) as u8
                && e[6] == ((dst.0 >> 24) & 0xff) as u8 && e[7] == ((dst.0 >> 16) & 0xff) as u8
                && e[8] == ((dst.0 >> 8) & 0xff) as u8 && e[9] == (dst.0 & 0xff) as u8);
            assert(e[10] == ((duration >> 24) & 0xff) as u8 && e[11] == ((duration >> 16)
                & 0xff) as u8 && e[12] == ((duration >> 8) & 0xff) as u8 && e[13] == (duration
                & 0xff) as u8);
        },
    }
}

/// Decoding an encoded status yields the status back.
pub proof fn lemma_status_round_trip(s: Status)
    ensures
        spec_decode_status(spec_encode_status(s)) == Some(s),
{
}

/// Deframing a frame made from a payload within the ceiling yields exactly
/// that payload and consumes the whole frame.
pub proof fn lemma_frame_round_trip(payload: Seq<u8>)
    requires
        payload.len() <= MAX_FRAME_LEN,
    ensures
        spec_frame(payload).len() == payload.len() + 4,
        u32_from_be(
            spec_frame(payload)[0],
            spec_frame(payload)[1],
            spec_frame(payload)[2],
            spec_frame(payload)[3],
        ) == payload.len(),
        spec_frame(payload).subrange(4, spec_frame(payload).len() as int) == payload,
{
    let n = payload.len() as u32;
    lemma_u32_be_round_trip(n);
    let f = spec_frame(payload);
    assert(f[0] == ((n >> 24) & 0xff) as u8 && f[1] == ((n >> 16) & 0xff) as u8 && f[2] == ((n >> 8)
        & 0xff) as u8 && f[3] == (n & 0xff) as u8);
    assert(f.subrange(4, f.len() as int) =~= payload);
}

/// The 32-bit value read from four big-endian bytes.
pub fn u32_from_bytes(b0: u8, b1: u8, b2: u8, b3: u8) -> (x: u32)
    ensures
        x == u32_from_be(b0, b1, b2, b3),
{
    ((b0 as u32) << 24) | ((b1 as u32) << 16) | ((b2 as u32) << 8) | (b3 as u32)
}

/// The 64-bit value read from eight big-endian bytes.
pub fn u64_from_bytes(b0: u8, b1: u8, b2: u8, b3: u8, b4: u8, b5: u8, b6: u8, b7: u8) -> (x: u64)
    ensures
        x == u64_from_be(b0, b1, b2, b3, b4, b5, b6, b7),
{
    ((b0 as u64) << 56) | ((b1 as u64) << 48) | ((b2 as u64) << 40) | ((b3 as u64) << 32) | ((
    b4 as u64) << 24) | ((b5 as u64) << 16) | ((b6 as u64) << 8) | (b7 as u64)
}

/// Append the big-endian bytes of a 32-bit value.
fn push_u32_be(out: &mut Vec<u8>, x: u32)
    ensures
        final(out)@ == old(out)@ + u32_be_bytes(x),
{
    out.push(((x >> 24) & 0xff) as u8);
    out.push(((x >> 16) & 0xff) as u8);
    out.push(((x >> 8) & 0xff) as u8);
    out.push((x & 0xff) as u8);
    proof {
        assert(final(out)@ =~= old(out)@ + u32_be_bytes(x));
    }
}

/// Append the big-endian bytes of a 64-bit value.
fn push_u64_be(out: &mut Vec<u8>, x: u64)
    ensures
        final(out)@ == old(out)@ + u64_be_bytes(x),
{
    out.push(((x >> 56) & 0xff) as u8);
    out.push(((x >> 48) & 0xff) as u8);
    out.push(((x >> 40) & 0xff) as u8);
    out.push(((x >> 32) & 0xff) as u8);
    out.push(((x >> 24) & 0xff) as u8);
    out.push(((x >> 16) & 0xff) as u8);
    out.push(((x >> 8) & 0xff) as u8);
    out.push((x & 0xff) as u8);
    proof {
        assert(final(out)@ =~= old(out)@ + u64_be_bytes(x));
    }
}

/// The bytes of a request message.
pub fn encode_request(r: &Request) -> (out: Vec<u8>)
    ensures
        out@ == spec_encode_request(*r),
{
    let mut out: Vec<u8> = Vec::new();
    out.push(WIRE_VERSION);
    match r {
        Request::Reserve { ttl } => {
            out.push(KIND_RESERVE);
            push_u32_be(&mut out, *ttl);
        },
        Request::Connect { dst, duration } => {
            out.push(KIND_CONNECT);
            push_u64_be(&mut out, dst.0);
            push_u32_be(&mut out, *duration);
        },
    }
    proof {
        assert(out@ =~= spec_encode_request(*r));
    }
    out
}

/// The request read from a payload; anything but an exact, versioned reserve
/// or connect message is refused.
pub fn decode_request(b: &Vec<u8>) -> (r: Option<Request>)
    ensures
        r == spec_decode_request(b@),
{
    if b.len() == 6 && b[0] == WIRE_VERSION && b[1] == KIND_RESERVE {
        let ttl = u32_from_bytes(b[2], b[3], b[4], b[5]);
        Some(Request::Reserve { ttl })
    } else if b.len() == 14 && b[0] == WIRE_VERSION && b[1] == KIND_CONNECT {
        let dst = PeerId(u64_from_bytes(b[2], b[3], b[4], b[5], b[6], b[7], b[8], b[9]));
        let duration = u32_from_bytes(b[10], b[11], b[12], b[13]);
        Some(Request::Connect { dst, duration })
    } else {
        None
    }
}

/// The bytes of a status message.
pub fn encode_status(s: &Status) -> (out: Vec<u8>)
    ensures
        out@ == spec_encode_status(*s),
{
    let code = match s {
        Status::Accepted => STATUS_OK,
        Status::Denied(DenyReason::RateLimited) => STATUS_RATE_LIMITED,
        Status::Denied(DenyReason::NoReservation) => STATUS_NO_RESERVATION,
        Status::Denied(DenyReason::CapacityExceeded) => STATUS_CAPACITY_EXCEEDED,
        Status::Denied(DenyReason::TtlRejected) => STATUS_TTL_REJECTED,
        Status::MalformedRequest => STATUS_MALFORMED,
    };
    let mut out: Vec<u8> = Vec::new();
    out.push(WIRE_VERSION);
    out.push(KIND_STATUS);
    out.push(code);
    proof {
        assert(out@ =~= spec_encode_status(*s));
    }
    out
}

/// The status read from a payload.
pub fn decode_status(b: &Vec<u8>) -> (r: Option<Status>)
    ensures
        r == spec_decode_status(b@),
{
    if b.len() == 3 && b[0] == WIRE_VERSION && b[1] == KIND_STATUS {
        let c = b[2];
        if c == STATUS_OK {
            Some(Status::Accepted)
        } else if c == STATUS_RATE_LIMITED {
            Some(Status::Denied(DenyReason::RateLimited))
        } else if c == STATUS_NO_RESERVATION {
            Some(Status::Denied(DenyReason::NoReservation))
        } else if c == STATUS_CAPACITY_EXCEEDED {
            Some(Status::Denied(DenyReason::CapacityExceeded))
        } else if c == STATUS_TTL_REJECTED {
            Some(Status::Denied(DenyReason::TtlRejected))
        } else if c == STATUS_MALFORMED {
            Some(Status::MalformedRequest)
        } else {
            None
        }
    } else {
        None
    }
}

/// Frame a payload for the wire; a payload above the ceiling is refused.
pub fn frame(payload: &Vec<u8>) -> (r: Option<Vec<u8>>)
    ensures
        payload@.len() <= MAX_FRAME_LEN ==> (r matches Some(f) && f@ == spec_frame(payload@)),
        payload@.len() > MAX_FRAME_LEN ==> r is None,
{
    if payload.len() > MAX_FRAME_LEN as usize {
        return None;
    }
    let mut out: Vec<u8> = Vec::new();
    push_u32_be(&mut out, payload.len() as u32);
    let mut i: usize = 0;
    while i < payload.len()
        invariant
            0 <= i <= payload@.len(),
            out@ == u32_be_bytes(payload@.len() as u32) + payload@.take(i as int),
        decreases payload@.len() - i,
    {
        out.push(payload[i]);
        proof {
            assert(payload@.take(i + 1) =~= payload@.take(i as int).push(payload@[i as int]));
            assert(out@ =~= u32_be_bytes(payload@.len() as u32) + payload@.take(i + 1));
        }
        i += 1;
    }
    proof {
        assert(payload@.take(payload@.len() as int) =~= payload@);
    }
    Some(out)
}

/// Take one frame off the front of a buffer: the payload and the bytes
/// consumed. `Incomplete` asks for more bytes; `Oversized` is a protocol
/// violation, the announced length breaks the ceiling.
pub fn take_frame(buf: &Vec<u8>) -> (r: Result<(Vec<u8>, usize), FrameError>)
    ensures
        match r {
            Result::Ok(p) => buf@.len() >= 4 && (u32_from_be(buf@[0], buf@[1], buf@[2], buf@[3])
                as int) <= MAX_FRAME_LEN && p.1 == 4 + u32_from_be(
                buf@[0],
                buf@[1],
                buf@[2],
                buf@[3],
            ) && buf@.len() >= p.1 && p.0@ == buf@.subrange(4, p.1 as int),
            Result::Err(FrameError::Oversized) => buf@.len() >= 4 && (u32_from_be(
                buf@[0],
                buf@[1],
                buf@[2],
                buf@[3],
            ) as int) > MAX_FRAME_LEN,
            Result::Err(FrameError::Incomplete) => buf@.len() < 4 || ((u32_from_be(
                buf@[0],
                buf@[1],
                buf@[2],
                buf@[3],
            ) as int) <= MAX_FRAME_LEN && buf@.len() < 4 + u32_from_be(
                buf@[0],
                buf@[1],
                buf@[2],
                buf@[3],
            )),
        },
{
    if buf.len() < 4 {
        return Result::Err(FrameError::Incomplete);
    }
    let n = u32_from_bytes(buf[0], buf[1], buf[2], buf[3]);
    if n > MAX_FRAME_LEN {
        return Result::Err(FrameError::Oversized);
    }
    let total: usize = 4 + n as usize;
    if buf.len() < total {
        return Result::Err(FrameError::Incomplete);
    }
    let mut payload: Vec<u8> = Vec::new();
    let mut i: usize = 4;
    while i < total
        invariant
            4 <= i <= total,
            total <= buf@.len(),
            payload@ == buf@.subrange(4, i as int),
        decreases total - i,
    {
        payload.push(buf[i]);
        proof {
            assert(buf@.subrange(4, i + 1) =~= buf@.subrange(4, i as int).push(buf@[i as int]));
        }
        i += 1;
    }
    Result::Ok((payload, total))
}

} // verus!
