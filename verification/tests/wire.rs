//! The wire format, held against prost's own encoder and decoder.

use something::v1::{
    exec_request, request, ExecRequest, PingRequest, RegisterRequest, Request, Response,
};
use something::wire::{read_varint, write_varint};
use something::{range_contains, range_display, version_range};

fn sample_values() -> Vec<u64> {
    let mut values = vec![0, 1, 127, 128, 150, 255, 300, 16_383, 16_384, u32::MAX as u64, u64::MAX];
    for shift in 0..64 {
        values.push(1u64 << shift);
        values.push((1u64 << shift) - 1);
    }
    values
}

#[test]
fn varints_match_prost() {
    for v in sample_values() {
        let mut ours = Vec::new();
        write_varint(v, &mut ours);
        let mut theirs = Vec::new();
        prost::encoding::encode_varint(v, &mut theirs);
        assert_eq!(ours, theirs, "value {v}");
        assert_eq!(read_varint(&ours, 0, ours.len()), Some((v, ours.len())));
    }
}

#[test]
fn overlong_and_truncated_varints_are_rejected() {
    // Eleven bytes.
    let long = [0x80u8, 0x80, 0x80, 0x80, 0x80, 0x80, 0x80, 0x80, 0x80, 0x80, 0x00];
    assert_eq!(read_varint(&long, 0, long.len()), None);
    // A tenth byte above one overflows 64 bits.
    let over = [0xffu8, 0xff, 0xff, 0xff, 0xff, 0xff, 0xff, 0xff, 0xff, 0x02];
    assert_eq!(read_varint(&over, 0, over.len()), None);
    let mut slice: &[u8] = &over;
    assert!(prost::encoding::decode_varint(&mut slice).is_err());
    // Ends in the middle.
    assert_eq!(read_varint(&[0x96], 0, 1), None);
}

#[test]
fn requests_encode_as_prost_writes_them() {
    let exec = Request {
        body: Some(request::Body::Exec(ExecRequest {
            negotiated_version: 300,
            call: Some(exec_request::Call::Ping(PingRequest {})),
        })),
    };
    // ExecRequest { negotiated_version = 1 (varint), ping = 2 (empty message) }
    let mut inner = Vec::new();
    prost::encoding::encode_key(1, prost::encoding::WireType::Varint, &mut inner);
    prost::encoding::encode_varint(300, &mut inner);
    prost::encoding::encode_key(2, prost::encoding::WireType::LengthDelimited, &mut inner);
    prost::encoding::encode_varint(0, &mut inner);
    let mut expected = Vec::new();
    prost::encoding::encode_key(2, prost::encoding::WireType::LengthDelimited, &mut expected);
    prost::encoding::encode_varint(inner.len() as u64, &mut expected);
    expected.extend_from_slice(&inner);
    assert_eq!(exec.encode_to_vec(), expected);

    let register = Request {
        body: Some(request::Body::Register(RegisterRequest {
            client_build: "héllo".to_string(),
        })),
    };
    let mut inner = Vec::new();
    prost::encoding::string::encode(1, &"héllo".to_string(), &mut inner);
    let mut expected = Vec::new();
    prost::encoding::encode_key(1, prost::encoding::WireType::LengthDelimited, &mut expected);
    prost::encoding::encode_varint(inner.len() as u64, &mut expected);
    expected.extend_from_slice(&inner);
    assert_eq!(register.encode_to_vec(), expected);
}

#[test]
fn requests_decode_what_they_encode() {
    let requests = vec![
        Request { body: None },
        Request {
            body: Some(request::Body::Register(RegisterRequest {
                client_build: String::new(),
            })),
        },
        Request {
            body: Some(request::Body::Register(RegisterRequest {
                client_build: "build ✓".to_string(),
            })),
        },
        Request {
            body: Some(request::Body::Exec(ExecRequest {
                negotiated_version: 0,
                call: None,
            })),
        },
        Request {
            body: Some(request::Body::Exec(ExecRequest {
                negotiated_version: u32::MAX,
                call: Some(exec_request::Call::Ping(PingRequest {})),
            })),
        },
    ];
    for request in requests {
        let bytes = request.encode_to_vec();
        assert_eq!(Request::decode(&bytes).unwrap(), request);
    }
}

#[test]
fn decoding_follows_proto3_rules() {
    // A scalar read twice keeps the last value: version 1, then 2.
    let bytes = [0x12, 0x06, 0x08, 0x01, 0x08, 0x02, 0x12, 0x00];
    match Request::decode(&bytes).unwrap().body {
        Some(request::Body::Exec(exec)) => assert_eq!(exec.negotiated_version, 2),
        other => panic!("expected exec, got {other:?}"),
    }
    // An unknown field (number 9, varint) is skipped.
    let bytes = [0x48, 0x05, 0x12, 0x02, 0x08, 0x01];
    match Request::decode(&bytes).unwrap().body {
        Some(request::Body::Exec(exec)) => {
            assert_eq!(exec.negotiated_version, 1);
            assert_eq!(exec.call, None);
        }
        other => panic!("expected exec, got {other:?}"),
    }
    // Field number zero is malformed.
    assert!(Request::decode(&[0x00, 0x00]).is_err());
    // Invalid UTF-8 in a string is malformed.
    assert!(Request::decode(&[0x0a, 0x03, 0x0a, 0x01, 0xff]).is_err());
    // A response decodes from the empty buffer as having no body.
    assert_eq!(Response::decode(&[]).unwrap().body, None);
}

#[test]
fn ranges_contain_their_bounds_and_print_as_min_max() {
    let range = version_range(2, 4);
    assert!(!range_contains(&range, 1));
    assert!(range_contains(&range, 2));
    assert!(range_contains(&range, 4));
    assert!(!range_contains(&range, 5));
    assert_eq!(range_display(&range), "2-4");
    assert_eq!(range_display(&version_range(0, u32::MAX)), "0-4294967295");
}
