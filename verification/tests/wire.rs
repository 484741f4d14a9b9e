use relay_core::codec::decode_request;
use relay_core::codec::decode_status;
use relay_core::codec::encode_request;
use relay_core::codec::encode_status;
use relay_core::codec::frame;
use relay_core::codec::take_frame;
use relay_core::codec::FrameError;
use relay_core::codec::Request;
use relay_core::codec::MAX_FRAME_LEN;
use relay_core::identity::seed_to_key_bytes;
use relay_core::types::DenyReason;
use relay_core::types::PeerId;
use relay_core::types::Status;

#[test]
fn reserve_request_exact_bytes() {
    let out = encode_request(&Request::Reserve { ttl: 3600 });
    assert_eq!(out, vec![1u8, 1, 0, 0, 0x0e, 0x10]);
}

#[test]
fn connect_request_exact_bytes() {
    let out = encode_request(&Request::Connect { dst: PeerId(0x0102030405060708), duration: 600 });
    assert_eq!(out, vec![1u8, 2, 1, 2, 3, 4, 5, 6, 7, 8, 0, 0, 0x02, 0x58]);
}

#[test]
fn request_round_trip_reserve() {
    let r = Request::Reserve { ttl: 0xdeadbeef };
    let out = encode_request(&r);
    assert_eq!(decode_request(&out), Some(r));
}

#[test]
fn request_round_trip_connect() {
    let r = Request::Connect { dst: PeerId(u64::MAX), duration: 0 };
    let out = encode_request(&r);
    assert_eq!(decode_request(&out), Some(r));
}

#[test]
fn decode_rejects_wrong_version() {
    let mut out = encode_request(&Request::Reserve { ttl: 7 });
    out[0] = 2;
    assert_eq!(decode_request(&out), None);
}

#[test]
fn decode_rejects_wrong_length() {
    let mut out = encode_request(&Request::Reserve { ttl: 7 });
    out.push(0);
    assert_eq!(decode_request(&out), None);
    assert_eq!(decode_request(&vec![]), None);
    assert_eq!(decode_request(&vec![1u8]), None);
}

#[test]
fn decode_rejects_unknown_kind() {
    let mut out = encode_request(&Request::Reserve { ttl: 7 });
    out[1] = 9;
    assert_eq!(decode_request(&out), None);
}

#[test]
fn status_round_trip_all() {
    let all = [
        Status::Accepted,
        Status::Denied(DenyReason::RateLimited),
        Status::Denied(DenyReason::NoReservation),
        Status::Denied(DenyReason::CapacityExceeded),
        Status::Denied(DenyReason::TtlRejected),
        Status::MalformedRequest,
    ];
    for s in all {
        let out = encode_status(&s);
        assert_eq!(out.len(), 3);
        assert_eq!(decode_status(&out), Some(s));
    }
}

#[test]
fn status_rejects_unknown_code() {
    assert_eq!(decode_status(&vec![1u8, 3, 200]), None);
    assert_eq!(decode_status(&vec![1u8, 1, 0]), None);
    assert_eq!(decode_status(&vec![1u8, 3]), None);
}

#[test]
fn frame_round_trip() {
    let payload = encode_request(&Request::Reserve { ttl: 60 });
    let framed = frame(&payload).unwrap();
    assert_eq!(framed.len(), payload.len() + 4);
    let (taken, consumed) = take_frame(&framed).unwrap();
    assert_eq!(taken, payload);
    assert_eq!(consumed, framed.len());
}

#[test]
fn frame_refuses_oversized_payload() {
    let payload = vec![0u8; MAX_FRAME_LEN as usize + 1];
    assert!(frame(&payload).is_none());
    let ok = vec![0u8; MAX_FRAME_LEN as usize];
    assert!(frame(&ok).is_some());
}

#[test]
fn take_frame_incomplete() {
    assert_eq!(take_frame(&vec![0u8, 0, 0]), Err(FrameError::Incomplete));
    // Announces four bytes of payload, delivers two.
    assert_eq!(take_frame(&vec![0u8, 0, 0, 4, 9, 9]), Err(FrameError::Incomplete));
}

#[test]
fn take_frame_oversized() {
    // Announced length above the ceiling is a protocol violation.
    assert_eq!(take_frame(&vec![0xffu8, 0xff, 0xff, 0xff]), Err(FrameError::Oversized));
    assert_eq!(take_frame(&vec![0u8, 0, 0x04, 0x01]), Err(FrameError::Oversized));
}

#[test]
fn take_frame_leaves_rest() {
    let payload = vec![7u8, 8, 9];
    let mut buf = frame(&payload).unwrap();
    buf.push(42);
    let (taken, consumed) = take_frame(&buf).unwrap();
    assert_eq!(taken, payload);
    assert_eq!(consumed, buf.len() - 1);
}

#[test]
fn seed_material_shape() {
    let bytes = seed_to_key_bytes(0xab);
    assert_eq!(bytes.len(), 32);
    assert_eq!(bytes[0], 0xab);
    for i in 1..32 {
        assert_eq!(bytes[i], 0);
    }
}
