//! The JSON envelope that carries protocol bytes as base64.

use something::{Envelope, EnvelopeError};

/// The envelope as JSON text, built the way the remote side writes it.
fn to_json(envelope: &Envelope) -> Vec<u8> {
    let mut object = serde_json::Map::new();
    object.insert(
        "payload".to_string(),
        serde_json::Value::String(envelope.payload.clone()),
    );
    serde_json::to_vec(&serde_json::Value::Object(object)).unwrap()
}

/// The envelope that JSON text holds.
fn from_json(bytes: &[u8]) -> Envelope {
    let value: serde_json::Value = serde_json::from_slice(bytes).unwrap();
    Envelope {
        payload: value["payload"].as_str().unwrap().to_string(),
    }
}

#[test]
fn round_trips_through_json() {
    let bytes = vec![0x08, 0x96, 0x01, 0xff, 0x00];
    let json = to_json(&Envelope::from_bytes(&bytes));
    let back = from_json(&json).to_bytes().unwrap();
    assert_eq!(bytes, back);
}

#[test]
fn round_trips_empty_payload() {
    let json = to_json(&Envelope::from_bytes(&[]));
    assert!(from_json(&json).to_bytes().unwrap().is_empty());
}

#[test]
fn rejects_bad_base64() {
    let env = from_json(br#"{"payload":"!!! not base64 !!!"}"#);
    assert!(matches!(env.to_bytes(), Err(EnvelopeError::Base64(_))));
}

#[test]
fn the_payload_is_padded_standard_base64() {
    assert_eq!(Envelope::from_bytes(&[0x08, 0x96, 0x01, 0xff, 0x00]).payload, "CJYB/wA=");
    assert_eq!(Envelope::from_bytes(&[0x12, 0x04, 0x08, 0x01, 0x12, 0x00]).payload, "EgQIARIA");
    assert_eq!(Envelope::from_bytes(&[]).payload, "");
}

#[test]
fn only_canonical_base64_is_accepted() {
    let decode = |payload: &str| {
        Envelope {
            payload: payload.to_string(),
        }
        .to_bytes()
    };
    assert_eq!(decode("aGk=").unwrap(), b"hi".to_vec());
    // Missing padding, and non-zero trailing bits.
    assert!(decode("aGk").is_err());
    assert!(decode("aGl=").is_err());
}

#[test]
fn every_byte_value_round_trips() {
    let bytes: Vec<u8> = (0..=255u8).collect();
    for n in 0..bytes.len() {
        let envelope = Envelope::from_bytes(&bytes[..n]);
        assert_eq!(envelope.to_bytes().unwrap(), bytes[..n].to_vec());
    }
}
