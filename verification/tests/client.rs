//! Client behaviour, all of it offline: the "remote" cases run against a test
//! transport whose server can be replaced mid-test.

use std::sync::atomic::{AtomicBool, AtomicUsize, Ordering};
use std::sync::{Arc, Mutex};

use something::v1::{request, response, ErrorCode, ErrorResponse, Request, Response};
use something::{
    capability, negotiate, ClientRequirements, DoSomething, EnvValue, Error, ErrorKind, Handler, HandlerConfig,
    LoopbackTransport, Mode, Something, Transport, TransportError,
};

/// A server that can be swapped for another between calls, standing in for a
/// redeploy, and that counts the calls it gets.
#[derive(Default)]
struct TestServer {
    handler: Mutex<Handler>,
    /// Simulates a server that rejects every version it is offered,
    /// including one it just advertised.
    reject_exec: AtomicBool,
    register_calls: AtomicUsize,
    exec_calls: AtomicUsize,
}

impl TestServer {
    fn new(handler: Handler) -> Arc<Self> {
        Arc::new(TestServer {
            handler: Mutex::new(handler),
            ..TestServer::default()
        })
    }

    fn swap(&self, handler: Handler) {
        *self.handler.lock().unwrap() = handler;
    }

    fn reject_every_exec(&self) {
        self.reject_exec.store(true, Ordering::SeqCst);
    }

    fn register_calls(&self) -> usize {
        self.register_calls.load(Ordering::SeqCst)
    }

    fn exec_calls(&self) -> usize {
        self.exec_calls.load(Ordering::SeqCst)
    }

    fn transport(self: &Arc<Self>) -> TestTransport {
        TestTransport {
            server: Arc::clone(self),
        }
    }
}

struct TestTransport {
    server: Arc<TestServer>,
}

impl Transport for TestTransport {
    fn call(&self, request: &[u8]) -> Result<Vec<u8>, TransportError> {
        let decoded = Request::decode(request).expect("tests only send valid requests");

        match decoded.body {
            Some(request::Body::Register(_)) => {
                self.server.register_calls.fetch_add(1, Ordering::SeqCst);
            }
            Some(request::Body::Exec(_)) => {
                self.server.exec_calls.fetch_add(1, Ordering::SeqCst);

                if self.server.reject_exec.load(Ordering::SeqCst) {
                    return Ok(Response {
                        body: Some(response::Body::Error(ErrorResponse {
                            code: ErrorCode::UnsupportedVersion.number(),
                            message: "this server rejects everything".to_string(),
                        })),
                    }
                    .encode_to_vec());
                }
            }
            None => {}
        }

        Ok(self.server.handler.lock().unwrap().handle_bytes(request))
    }

    fn describe(&self) -> String {
        "test".to_string()
    }
}

/// A transport that never delivers.
struct DownTransport;

impl Transport for DownTransport {
    fn call(&self, _request: &[u8]) -> Result<Vec<u8>, TransportError> {
        Err(TransportError::new("connection refused"))
    }

    fn describe(&self) -> String {
        "down".to_string()
    }
}

/// A transport that answers with fixed bytes.
struct FixedTransport(Vec<u8>);

impl Transport for FixedTransport {
    fn call(&self, _request: &[u8]) -> Result<Vec<u8>, TransportError> {
        Ok(self.0.clone())
    }

    fn describe(&self) -> String {
        "fixed".to_string()
    }
}

fn requirements(min: u32, max: u32) -> ClientRequirements {
    ClientRequirements::new(min, max, vec!["ping".to_string()])
}

/// A server that supports `min..=max` for both the protocol and `ping`.
fn server(min: u32, max: u32) -> Handler {
    Handler::new(
        HandlerConfig::new("test-server")
            .with_protocol_range(min, max)
            .with_capabilities(vec![capability("ping", min, max)]),
    )
}

#[test]
fn loopback_ping_round_trips_through_protobuf() {
    let mut something = Something::with_mode(Mode::Local).unwrap();

    assert_eq!(something.ping().unwrap(), "pong");
    assert_eq!(something.negotiated_version(), 1);
    assert!(something.server_build().contains("something-core"));
}

#[test]
fn negotiation_picks_the_highest_common_version() {
    let mut something = Something::connect(
        Box::new(LoopbackTransport::new(server(1, 3))),
        requirements(1, 2),
    )
    .unwrap();

    assert_eq!(something.negotiated_version(), 2);
    assert_eq!(something.ping().unwrap(), "pong");
}

#[test]
fn disjoint_ranges_are_incompatible() {
    let error = Something::connect(
        Box::new(LoopbackTransport::new(server(1, 2))),
        requirements(4, 5),
    )
    .err()
    .unwrap();

    match error {
        Error::Incompatible(message) => {
            assert!(message.contains("client 4-5"), "message: {message}");
            assert!(message.contains("inbound 1-2"), "message: {message}");
        }
        other => panic!("expected Incompatible, got {other:?}"),
    }
}

#[test]
fn a_missing_required_capability_is_incompatible() {
    let handler = Handler::new(HandlerConfig::new("test-server").with_capabilities(vec![]));
    let error = Something::connect(
        Box::new(LoopbackTransport::new(handler)),
        ClientRequirements::new(1, 1, vec!["ping".to_string()]),
    )
    .err()
    .unwrap();

    match error {
        Error::Incompatible(message) => {
            assert!(message.contains("ping"), "message: {message}");
        }
        other => panic!("expected Incompatible, got {other:?}"),
    }
}

#[test]
fn a_capability_range_can_lower_the_negotiated_version() {
    let handler = Handler::new(
        HandlerConfig::new("test-server")
            .with_protocol_range(1, 3)
            .with_capabilities(vec![capability("ping", 1, 2)]),
    );

    let something = Something::connect(
        Box::new(LoopbackTransport::new(handler)),
        requirements(1, 3),
    )
    .unwrap();

    assert_eq!(something.negotiated_version(), 2);
}

#[test]
fn a_redeployed_server_triggers_one_renegotiation_and_succeeds() {
    let server_handle = TestServer::new(server(1, 2));
    let mut something =
        Something::connect(Box::new(server_handle.transport()), requirements(1, 2)).unwrap();
    assert_eq!(something.negotiated_version(), 2);

    // The deploy that invalidates the handshake.
    server_handle.swap(server(1, 1));

    assert_eq!(something.ping().unwrap(), "pong");
    assert_eq!(something.negotiated_version(), 1, "should have dropped to 1");
    assert_eq!(server_handle.register_calls(), 2, "connect, then re-register");
    assert_eq!(server_handle.exec_calls(), 2, "rejected call, then retry");
}

#[test]
fn a_server_that_keeps_rejecting_gives_up_after_one_retry() {
    let server_handle = TestServer::new(server(1, 1));
    let mut something =
        Something::connect(Box::new(server_handle.transport()), requirements(1, 1)).unwrap();

    server_handle.reject_every_exec();

    match something.ping().err().unwrap() {
        Error::Server { code, .. } => assert_eq!(code, ErrorCode::UnsupportedVersion),
        other => panic!("expected a server error, got {other:?}"),
    }

    // No storm: exactly one extra handshake and one extra call.
    assert_eq!(server_handle.register_calls(), 2);
    assert_eq!(server_handle.exec_calls(), 2);
}

#[test]
fn unknown_modes_are_rejected_rather_than_defaulted() {
    assert_eq!("local".parse::<Mode>().unwrap(), Mode::Local);
    assert_eq!("  REMOTE ".parse::<Mode>().unwrap(), Mode::Remote);

    match "lokal".parse::<Mode>() {
        Err(Error::Config(message)) => assert!(message.contains("lokal"), "message: {message}"),
        other => panic!("expected a config error, got {other:?}"),
    }
    assert!("".parse::<Mode>().is_err());
}

#[test]
fn an_unset_mode_defaults_to_local() {
    assert_eq!(Mode::from_env(EnvValue::NotPresent).unwrap(), Mode::Local);

    assert!(Mode::from_env(EnvValue::Present("nonsense".to_string())).is_err());
}

#[test]
fn unknown_modes_are_quoted_in_the_message() {
    match Mode::parse("  Lokal\t") {
        Err(Error::Config(message)) => {
            assert_eq!(message, "unknown mode \"lokal\"; expected \"local\" or \"remote\"")
        }
        other => panic!("expected a config error, got {other:?}"),
    }
    match Mode::parse("say \"hi\"") {
        Err(Error::Config(message)) => {
            assert_eq!(message, "unknown mode \"say \\\"hi\\\"\"; expected \"local\" or \"remote\"")
        }
        other => panic!("expected a config error, got {other:?}"),
    }
}

#[test]
fn modes_ignore_unicode_white_space_and_ascii_case() {
    assert_eq!(Mode::parse("\u{3000}LoCaL\u{a0}\n").unwrap(), Mode::Local);
    assert_eq!(Mode::parse("Remote").unwrap(), Mode::Remote);
    // Only ASCII letters are folded.
    assert!(Mode::parse("LOCAL\u{130}").is_err());
}

#[test]
fn an_unreadable_mode_variable_is_a_config_error() {
    match Mode::from_env(EnvValue::Unreadable("not unicode".to_string())) {
        Err(Error::Config(message)) => {
            assert_eq!(message, "SOMETHING_MODE is unreadable: not unicode")
        }
        other => panic!("expected a config error, got {other:?}"),
    }
}

#[test]
fn remote_mode_needs_a_remote_transport() {
    match Something::with_mode(Mode::Remote) {
        Err(Error::Config(message)) => assert_eq!(
            message,
            "remote mode needs a remote transport, which this library does not build: pass one to connect"
        ),
        Err(other) => panic!("expected a config error, got {other:?}"),
        Ok(_) => panic!("expected a config error"),
    }
}

#[test]
fn from_env_builds_a_local_client_by_default() {
    let mut something = Something::from_env(EnvValue::NotPresent).unwrap();
    assert_eq!(something.ping().unwrap(), "pong");
    assert_eq!(
        something.transport_description(),
        "loopback(something-core/0.1.0)"
    );
    assert!(Something::from_env(EnvValue::Present("lokal".to_string())).is_err());
}

#[test]
fn transport_failures_surface_as_transport_errors() {
    match Something::connect(Box::new(DownTransport), requirements(1, 1)) {
        Err(Error::Transport(e)) => assert_eq!(e.message, "connection refused"),
        Err(other) => panic!("expected a transport error, got {other:?}"),
        Ok(_) => panic!("expected a transport error"),
    }
}

#[test]
fn undecodable_answers_are_decode_errors() {
    match Something::connect(Box::new(FixedTransport(vec![0xff])), requirements(1, 1)) {
        Err(Error::Decode(_)) => {}
        Err(other) => panic!("expected a decode error, got {other:?}"),
        Ok(_) => panic!("expected a decode error"),
    }
}

#[test]
fn answers_that_make_no_sense_are_protocol_errors() {
    // An empty answer decodes as a response without a body.
    match Something::connect(Box::new(FixedTransport(vec![])), requirements(1, 1)) {
        Err(Error::Protocol(message)) => assert_eq!(message, "response has no body"),
        Err(other) => panic!("expected a protocol error, got {other:?}"),
        Ok(_) => panic!("expected a protocol error"),
    }
    // A pong in answer to register.
    let pong = Handler::default().handle_bytes(&[0x12, 0x04, 0x08, 0x01, 0x12, 0x00]);
    match Something::connect(Box::new(FixedTransport(pong)), requirements(1, 1)) {
        Err(Error::Protocol(message)) => {
            assert_eq!(message, "server answered register with an exec response")
        }
        Err(other) => panic!("expected a protocol error, got {other:?}"),
        Ok(_) => panic!("expected a protocol error"),
    }
}

#[test]
fn server_refusals_of_register_are_server_errors() {
    let refusal = Response {
        body: Some(response::Body::Error(ErrorResponse {
            code: 5,
            message: "down for maintenance".to_string(),
        })),
    }
    .encode_to_vec();
    match Something::connect(Box::new(FixedTransport(refusal)), requirements(1, 1)) {
        Err(Error::Server { code, message }) => {
            assert_eq!(code, ErrorCode::Internal);
            assert_eq!(message, "down for maintenance");
        }
        Err(other) => panic!("expected a server error, got {other:?}"),
        Ok(_) => panic!("expected a server error"),
    }
}

#[test]
fn a_failed_renegotiation_keeps_the_old_handshake() {
    let server_handle = TestServer::new(server(2, 2));
    let mut something =
        Something::connect(Box::new(server_handle.transport()), requirements(1, 2)).unwrap();
    assert_eq!(something.negotiated_version(), 2);

    // The new deploy only speaks 3: the version is refused, and renegotiation
    // finds nothing in common.
    server_handle.swap(server(3, 3));

    match something.ping().err().unwrap() {
        Error::Incompatible(_) => {}
        other => panic!("expected Incompatible, got {other:?}"),
    }
    assert_eq!(something.negotiated_version(), 2);
    assert_eq!(server_handle.register_calls(), 2);
    assert_eq!(server_handle.exec_calls(), 1);
}

#[test]
fn negotiation_messages_name_every_range() {
    let handler = Handler::new(
        HandlerConfig::new("test-server")
            .with_protocol_range(1, 3)
            .with_capabilities(vec![capability("ping", 1, 2), capability("echo", 1, 1)]),
    );
    match Something::connect(
        Box::new(LoopbackTransport::new(handler)),
        ClientRequirements::new(3, 3, vec!["ping".to_string()]),
    ) {
        Err(Error::Incompatible(message)) => assert_eq!(
            message,
            "no common protocol version: client 3-3, server inbound 1-3, outbound 1-3, capabilities ping 1-2"
        ),
        Err(other) => panic!("expected Incompatible, got {other:?}"),
        Ok(_) => panic!("expected Incompatible"),
    }

    let handler = Handler::new(
        HandlerConfig::new("b1").with_capabilities(vec![capability("echo", 1, 1), capability("sum", 1, 1)]),
    );
    match Something::connect(
        Box::new(LoopbackTransport::new(handler)),
        ClientRequirements::new(1, 1, vec!["ping".to_string()]),
    ) {
        Err(Error::Incompatible(message)) => assert_eq!(
            message,
            "server b1 does not provide required capability ping; it has [echo, sum]; client 1-1, server inbound 1-1, outbound 1-1"
        ),
        Err(other) => panic!("expected Incompatible, got {other:?}"),
        Ok(_) => panic!("expected Incompatible"),
    }
}

#[test]
fn requiring_a_capability_only_lowers_the_version() {
    let handler = Handler::new(
        HandlerConfig::new("test-server")
            .with_protocol_range(1, 5)
            .with_capabilities(vec![capability("ping", 1, 5), capability("echo", 2, 3)]),
    );
    let without = Something::connect(
        Box::new(LoopbackTransport::new(handler.clone())),
        ClientRequirements::new(1, 5, vec!["ping".to_string()]),
    )
    .unwrap();
    let with = Something::connect(
        Box::new(LoopbackTransport::new(handler)),
        ClientRequirements::new(1, 5, vec!["ping".to_string(), "echo".to_string()]),
    )
    .unwrap();
    assert_eq!(without.negotiated_version(), 5);
    assert_eq!(with.negotiated_version(), 3);
}

#[test]
fn negotiate_reports_missing_ranges_as_protocol_errors() {
    let register = match Handler::default().handle(Request {
        body: Some(request::Body::Register(something::v1::RegisterRequest {
            client_build: String::new(),
        })),
    }) {
        Response {
            body: Some(response::Body::Register(register)),
        } => register,
        other => panic!("expected a register response, got {other:?}"),
    };
    let negotiated = negotiate(&ClientRequirements::default(), &register).unwrap();
    assert_eq!(negotiated.version, 1);
    assert_eq!(negotiated.server_build, "something-core/0.1.0");

    let mut no_inbound = register;
    no_inbound.inbound = None;
    match negotiate(&ClientRequirements::default(), &no_inbound) {
        Err(Error::Protocol(message)) => {
            assert_eq!(message, "register response has no inbound range")
        }
        other => panic!("expected a protocol error, got {other:?}"),
    }
}

#[test]
fn errors_read_as_their_kind() {
    assert_eq!(
        Error::Transport(TransportError::new("timed out")).to_string(),
        "transport failure: timed out"
    );
    assert_eq!(
        Error::Server {
            code: ErrorCode::UnsupportedVersion,
            message: "no".to_string()
        }
        .to_string(),
        "server error UnsupportedVersion: no"
    );
    assert_eq!(
        Error::Config("x".to_string()).to_string(),
        "configuration error: x"
    );
    assert_eq!(
        Error::Incompatible("y".to_string()).to_string(),
        "incompatible: y"
    );
    assert_eq!(
        Error::Protocol("z".to_string()).to_string(),
        "protocol violation: z"
    );
}

#[test]
fn errors_fall_into_families() {
    assert_eq!(Error::Transport(TransportError::new("x")).kind(), ErrorKind::Transport);
    assert_eq!(Error::Incompatible("x".to_string()).kind(), ErrorKind::Incompatible);
    assert_eq!(
        Error::Server {
            code: ErrorCode::Internal,
            message: "x".to_string()
        }
        .kind(),
        ErrorKind::Server
    );
    assert_eq!(Error::Protocol("x".to_string()).kind(), ErrorKind::Setup);
    assert_eq!(Error::Config("x".to_string()).kind(), ErrorKind::Setup);
    let decode = match Something::connect(Box::new(FixedTransport(vec![0xff])), requirements(1, 1)) {
        Err(e) => e,
        Ok(_) => panic!("expected a decode error"),
    };
    assert_eq!(decode.kind(), ErrorKind::Setup);
}

#[test]
fn a_client_shows_where_calls_go_and_what_was_agreed() {
    let something = Something::with_mode(Mode::Local).unwrap();
    assert_eq!(
        something.debug_string(),
        "Something { transport: \"loopback(something-core/0.1.0)\", negotiated_version: 1, server_build: \"something-core/0.1.0\" }"
    );
}

#[test]
fn negotiation_is_the_highest_version_everyone_accepts() {
    // Client 1-6, server inbound/outbound 2-5, ping 1-4, echo 3-9: the
    // acceptable versions are 3 and 4, and 4 is chosen.
    let handler = Handler::new(
        HandlerConfig::new("s")
            .with_protocol_range(2, 5)
            .with_capabilities(vec![capability("ping", 1, 4), capability("echo", 3, 9)]),
    );
    let something = Something::connect(
        Box::new(LoopbackTransport::new(handler)),
        ClientRequirements::new(1, 6, vec!["ping".to_string(), "echo".to_string()]),
    )
    .unwrap();
    assert_eq!(something.negotiated_version(), 4);
    assert_eq!(something.server_build(), "s");
}

#[test]
fn a_ping_makes_one_call_when_the_version_is_served() {
    let server_handle = TestServer::new(server(1, 3));
    let mut something =
        Something::connect(Box::new(server_handle.transport()), requirements(1, 3)).unwrap();
    for _ in 0..3 {
        assert_eq!(something.ping().unwrap(), "pong");
    }
    assert_eq!(server_handle.register_calls(), 1);
    assert_eq!(server_handle.exec_calls(), 3);
}

/// Answers register calls from a server and fails every exec.
struct FlakyTransport {
    handler: Handler,
    exec_calls: Arc<AtomicUsize>,
}

impl Transport for FlakyTransport {
    fn call(&self, request: &[u8]) -> Result<Vec<u8>, TransportError> {
        match Request::decode(request).unwrap().body {
            Some(request::Body::Exec(_)) => {
                self.exec_calls.fetch_add(1, Ordering::SeqCst);
                Err(TransportError::new("timed out"))
            }
            _ => Ok(self.handler.handle_bytes(request)),
        }
    }

    fn describe(&self) -> String {
        "flaky".to_string()
    }
}

#[test]
fn a_transport_failure_during_ping_is_not_retried() {
    let exec_calls = Arc::new(AtomicUsize::new(0));
    let mut something = Something::connect(
        Box::new(FlakyTransport {
            handler: Handler::default(),
            exec_calls: Arc::clone(&exec_calls),
        }),
        ClientRequirements::default(),
    )
    .unwrap();
    match something.ping().err().unwrap() {
        Error::Transport(e) => assert_eq!(e.message, "timed out"),
        other => panic!("expected a transport error, got {other:?}"),
    }
    assert_eq!(exec_calls.load(Ordering::SeqCst), 1);
    assert_eq!(something.transport_description(), "flaky");
}

#[test]
fn a_loopback_transport_describes_its_server() {
    let transport = LoopbackTransport::with_config(HandlerConfig::new("unit"));
    assert_eq!(transport.describe(), "loopback(unit)");
    assert_eq!(transport.handler().config().build, "unit");
    let answer = transport.call(&[]).unwrap();
    assert_eq!(answer, transport.handler().handle_bytes(&[]));
}

#[test]
fn a_missing_capability_names_the_ranges_too() {
    let handler = Handler::new(
        HandlerConfig::new("test-server")
            .with_protocol_range(1, 2)
            .with_capabilities(vec![]),
    );
    match Something::connect(
        Box::new(LoopbackTransport::new(handler)),
        ClientRequirements::new(1, 1, vec!["ping".to_string()]),
    ) {
        Err(Error::Incompatible(message)) => {
            assert!(message.contains("client 1-1"), "message: {message}");
            assert!(message.contains("inbound 1-2"), "message: {message}");
            assert!(message.contains("outbound 1-2"), "message: {message}");
        }
        Err(other) => panic!("expected Incompatible, got {other:?}"),
        Ok(_) => panic!("expected Incompatible"),
    }
}

#[test]
fn transport_failures_read_as_such() {
    assert_eq!(
        TransportError::new("throttled").to_string(),
        "transport failure: throttled"
    );
}

#[test]
fn an_in_process_server_handed_in_negotiates_and_answers() {
    let mut something = Something::connect_local(
        LoopbackTransport::new(server(1, 3)),
        requirements(1, 2),
    )
    .unwrap();
    assert_eq!(something.negotiated_version(), 2);
    assert_eq!(something.ping().unwrap(), "pong");
    assert_eq!(something.transport_description(), "loopback(test-server)");

    match Something::connect_local(LoopbackTransport::new(server(1, 2)), requirements(4, 5)) {
        Err(Error::Incompatible(message)) => assert!(message.contains("client 4-5"), "message: {message}"),
        Err(other) => panic!("expected Incompatible, got {other:?}"),
        Ok(_) => panic!("expected Incompatible"),
    }
}
