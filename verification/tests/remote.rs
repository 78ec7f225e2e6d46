//! The remote transport's settings and answers, and the remote function's
//! envelope handling, none of which needs a network.

use something::remote::{
    build_id, describe_remote, envelope_failure, invoke_failure, invoke_timeout,
    open_response_envelope, parse_u64, read_invoke_output, remote_settings, serve_envelope,
    IntError, RemoteSettings,
};
use something::v1::{response, Response};
use something::{EnvValue, Envelope, EnvelopeError, Error, Handler};

fn present(s: &str) -> EnvValue {
    EnvValue::Present(s.to_string())
}

fn settings() -> RemoteSettings {
    RemoteSettings {
        function: "something-poc".to_string(),
        qualifier: "live".to_string(),
        timeout_secs: 30,
    }
}

#[test]
fn integers_parse_as_u64_from_str_does() {
    for text in ["0", "7", "+7", "007", "18446744073709551615", "", "+", "-", "-1", "1_000", " 1", "１", "18446744073709551616", "99999999999999999999x"] {
        let ours = parse_u64(text);
        let std_result = text.parse::<u64>();
        match (&ours, &std_result) {
            (Ok(a), Ok(b)) => assert_eq!(a, b, "{text:?}"),
            (Err(IntError::Empty), Err(e)) => assert_eq!(e.to_string(), "cannot parse integer from empty string"),
            (Err(IntError::InvalidDigit), Err(e)) => assert_eq!(e.to_string(), "invalid digit found in string", "{text:?}"),
            (Err(IntError::PosOverflow), Err(e)) => assert_eq!(e.to_string(), "number too large to fit in target type", "{text:?}"),
            _ => panic!("{text:?}: ours {ours:?}, std {std_result:?}"),
        }
    }
}

#[test]
fn settings_need_a_function_and_a_qualifier() {
    match remote_settings(EnvValue::NotPresent, present("live"), EnvValue::NotPresent) {
        Err(Error::Config(message)) => {
            assert_eq!(message, "SOMETHING_LAMBDA_FUNCTION is required in remote mode")
        }
        other => panic!("expected a config error, got {other:?}"),
    }
    match remote_settings(present("f"), EnvValue::NotPresent, EnvValue::NotPresent) {
        Err(Error::Config(message)) => assert!(message.starts_with("SOMETHING_LAMBDA_QUALIFIER is required")),
        other => panic!("expected a config error, got {other:?}"),
    }
}

#[test]
fn the_timeout_defaults_to_thirty_seconds() {
    let s = remote_settings(present("f"), present("q"), EnvValue::NotPresent).unwrap();
    assert_eq!(s.timeout_secs, 30);
    let s = remote_settings(present("f"), present("q"), EnvValue::Unreadable("bad".to_string())).unwrap();
    assert_eq!(s.timeout_secs, 30);
    let s = remote_settings(present("f"), present("q"), present("5")).unwrap();
    assert_eq!((s.function.as_str(), s.qualifier.as_str(), s.timeout_secs), ("f", "q", 5));
    match remote_settings(present("f"), present("q"), present("5s")) {
        Err(Error::Config(message)) => assert_eq!(
            message,
            "SOMETHING_LAMBDA_TIMEOUT_SECS must be whole seconds: invalid digit found in string"
        ),
        other => panic!("expected a config error, got {other:?}"),
    }
}

#[test]
fn remote_messages_name_the_target() {
    assert_eq!(describe_remote(&settings()), "lambda(something-poc:live)");
    assert_eq!(
        invoke_failure(&settings(), "throttled").message,
        "invoke something-poc:live failed: throttled"
    );
    assert_eq!(
        invoke_timeout(&settings()).message,
        format!("invoke something-poc:live timed out after {:?}", std::time::Duration::from_secs(30))
    );
    let no_time = RemoteSettings {
        timeout_secs: 0,
        ..settings()
    };
    assert_eq!(
        invoke_timeout(&no_time).message,
        format!("invoke something-poc:live timed out after {:?}", std::time::Duration::from_secs(0))
    );
    assert_eq!(envelope_failure("x").message, "could not build envelope: x");
}

#[test]
fn function_errors_and_empty_payloads_are_transport_failures() {
    let e = read_invoke_output(Some("Unhandled".to_string()), Some(b"boom \xff".to_vec())).unwrap_err();
    assert_eq!(e.message, "lambda function error (Unhandled): boom \u{fffd}");
    let e = read_invoke_output(Some("Unhandled".to_string()), None).unwrap_err();
    assert_eq!(e.message, "lambda function error (Unhandled): ");
    let e = read_invoke_output(None, None).unwrap_err();
    assert_eq!(e.message, "lambda returned an empty payload");
    assert_eq!(read_invoke_output(None, Some(vec![1, 2])).unwrap(), vec![1, 2]);
}

#[test]
fn response_envelopes_open_to_their_bytes() {
    let envelope = Envelope::from_bytes(&[0x12, 0x00]);
    assert_eq!(open_response_envelope(Ok(envelope)).unwrap(), vec![0x12, 0x00]);
    let e = open_response_envelope(Err(EnvelopeError::Json("expected value".to_string()))).unwrap_err();
    assert_eq!(e.message, "bad response envelope: envelope is not valid JSON: expected value");
    let e = open_response_envelope(Ok(Envelope {
        payload: "!!".to_string(),
    }))
    .unwrap_err();
    assert!(e.message.starts_with("bad response envelope: envelope payload is not valid base64: "));
}

#[test]
fn the_remote_function_answers_envelopes_with_envelopes() {
    let handler = Handler::default();
    let request = Envelope {
        payload: "EgQIARIA".to_string(),
    };
    let answer = serve_envelope(&handler, &request).unwrap().unwrap();
    let bytes = answer.to_bytes().unwrap();
    match Response::decode(&bytes).unwrap().body {
        Some(response::Body::Exec(_)) => {}
        other => panic!("expected an exec response, got {other:?}"),
    }
    assert_eq!(bytes, handler.handle_bytes(&[0x12, 0x04, 0x08, 0x01, 0x12, 0x00]));

    let bad = Envelope {
        payload: "not base64!".to_string(),
    };
    assert!(matches!(serve_envelope(&handler, &bad), Err(EnvelopeError::Base64(_))));
}

#[test]
fn builds_are_named_by_function_and_version() {
    assert_eq!(build_id(present("poc"), present("7")), "poc:7");
    assert_eq!(build_id(EnvValue::NotPresent, EnvValue::NotPresent), "local:dev");
}
