//! Server-side behaviour, talking to the handler in its real currency:
//! encoded bytes, so decode failures are covered too.

use something::v1::{
    exec_request, exec_response, request, response, ErrorCode, ExecRequest, PingRequest,
    RegisterRequest, Request, Response,
};
use something::{capability, Handler, HandlerConfig};

fn handle(handler: &Handler, request: Request) -> Response {
    Response::decode(handler.handle_bytes(&request.encode_to_vec()).as_slice())
        .expect("handler always emits a decodable Response")
}

fn exec_ping(version: u32) -> Request {
    Request {
        body: Some(request::Body::Exec(ExecRequest {
            negotiated_version: version,
            call: Some(exec_request::Call::Ping(PingRequest {})),
        })),
    }
}

fn expect_error(response: Response) -> (ErrorCode, String) {
    match response.body {
        Some(response::Body::Error(err)) => (err.code(), err.message),
        other => panic!("expected an error response, got {other:?}"),
    }
}

fn expect_pong(response: Response) {
    match response.body {
        Some(response::Body::Exec(exec)) => match exec.output {
            Some(exec_response::Output::Ping(ping)) => assert_eq!(ping.message, "pong"),
            other => panic!("expected a ping output, got {other:?}"),
        },
        other => panic!("expected an exec response, got {other:?}"),
    }
}

#[test]
fn ping_at_a_valid_version_returns_pong() {
    let handler = Handler::default();

    let response = handle(&handler, exec_ping(1));

    expect_pong(response);
}

#[test]
fn exec_without_a_version_is_rejected() {
    let handler = Handler::default();

    let (code, message) = expect_error(handle(&handler, exec_ping(0)));

    assert_eq!(code, ErrorCode::MissingVersion);
    assert!(message.contains("negotiated_version"), "message: {message}");
}

#[test]
fn exec_outside_the_server_range_is_rejected() {
    let handler = Handler::new(HandlerConfig::new("test").with_protocol_range(1, 2));

    let (code, message) = expect_error(handle(&handler, exec_ping(3)));

    assert_eq!(code, ErrorCode::UnsupportedVersion);
    assert!(message.contains("1-2"), "message: {message}");
}

#[test]
fn exec_outside_the_capability_range_is_rejected() {
    let handler = Handler::new(
        HandlerConfig::new("test")
            .with_protocol_range(1, 3)
            .with_capabilities(vec![capability("ping", 1, 2)]),
    );

    let (code, message) = expect_error(handle(&handler, exec_ping(3)));

    assert_eq!(code, ErrorCode::UnsupportedVersion);
    assert!(message.contains("capability ping"), "message: {message}");
}

#[test]
fn exec_for_a_missing_capability_is_rejected() {
    let handler = Handler::new(HandlerConfig::new("test").with_capabilities(vec![]));

    let (code, _) = expect_error(handle(&handler, exec_ping(1)));

    assert_eq!(code, ErrorCode::UnsupportedCapability);
}

#[test]
fn register_reports_the_configured_ranges_and_capabilities() {
    let handler = Handler::new(HandlerConfig::new("build-xyz").with_protocol_range(2, 4));

    let response = handle(
        &handler,
        Request {
            body: Some(request::Body::Register(RegisterRequest {
                client_build: "test-client".to_string(),
            })),
        },
    );

    match response.body {
        Some(response::Body::Register(register)) => {
            assert_eq!(register.build, "build-xyz");
            assert_eq!(register.inbound.unwrap().max, 4);
            assert_eq!(register.outbound.unwrap().min, 2);
            assert_eq!(register.capabilities.len(), 1);
            assert_eq!(register.capabilities[0].name, "ping");
            assert!(register.limits.contains_key("max_payload_bytes"));
        }
        other => panic!("expected a register response, got {other:?}"),
    }
}

#[test]
fn garbage_bytes_do_not_panic() {
    let handler = Handler::default();

    // Field 1 declared as length-delimited with a length that runs off the end.
    let response = Response::decode(handler.handle_bytes(&[0x0a, 0xff, 0xff]).as_slice()).unwrap();

    assert_eq!(expect_error(response).0, ErrorCode::InvalidRequest);
}

#[test]
fn an_empty_body_is_an_error_not_a_default_operation() {
    let handler = Handler::default();

    // An empty buffer decodes cleanly as a request without a body.
    let response = Response::decode(handler.handle_bytes(&[]).as_slice()).unwrap();

    assert_eq!(expect_error(response).0, ErrorCode::InvalidRequest);
}

#[test]
fn exec_without_a_call_is_an_error() {
    let handler = Handler::default();

    let response = handle(
        &handler,
        Request {
            body: Some(request::Body::Exec(ExecRequest {
                negotiated_version: 1,
                call: None,
            })),
        },
    );

    assert_eq!(expect_error(response).0, ErrorCode::InvalidRequest);
}

#[test]
fn the_payload_documented_in_the_readme_is_an_exec_ping() {
    let encoded = exec_ping(1).encode_to_vec();
    assert_eq!(encoded, vec![0x12, 0x04, 0x08, 0x01, 0x12, 0x00]);

    let response = Response::decode(Handler::default().handle_bytes(&encoded).as_slice()).unwrap();
    expect_pong(response);
}

#[test]
fn refusal_messages_name_the_version_and_both_ranges() {
    let handler = Handler::new(HandlerConfig::new("test").with_protocol_range(1, 2));

    let (_, message) = expect_error(handle(&handler, exec_ping(7)));

    assert_eq!(message, "version 7 unsupported: server inbound 1-2, outbound 1-2");
}

#[test]
fn capability_refusals_name_the_capability_range() {
    let handler = Handler::new(
        HandlerConfig::new("test")
            .with_protocol_range(1, 30)
            .with_capabilities(vec![capability("ping", 12, 20)]),
    );

    let (_, message) = expect_error(handle(&handler, exec_ping(25)));
    assert_eq!(message, "capability ping requires version 12-20, got 25");

    let handler = Handler::new(HandlerConfig::new("test").with_capabilities(vec![]));
    let (_, message) = expect_error(handle(&handler, exec_ping(1)));
    assert_eq!(message, "capability ping is not available on this server");
}

#[test]
fn undecodable_requests_get_a_fixed_message() {
    let handler = Handler::default();

    let (code, message) = expect_error(
        Response::decode(handler.handle_bytes(&[0xff]).as_slice()).unwrap(),
    );

    assert_eq!(code, ErrorCode::InvalidRequest);
    assert_eq!(message, "undecodable request: failed to decode Protobuf message");
}

#[test]
fn register_answers_do_not_depend_on_the_client() {
    let handler = Handler::default();
    let register = |build: &str| {
        handler.handle_bytes(
            &Request {
                body: Some(request::Body::Register(RegisterRequest {
                    client_build: build.to_string(),
                })),
            }
            .encode_to_vec(),
        )
    };

    assert_eq!(register("a"), register("a completely different client"));
}

#[test]
fn the_direct_and_the_byte_paths_agree() {
    let handler = Handler::new(HandlerConfig::new("test").with_protocol_range(1, 3));
    for version in 0..5 {
        let direct = handler.handle(exec_ping(version));
        let through_bytes = handle(&handler, exec_ping(version));
        assert_eq!(direct, through_bytes);
    }
}
