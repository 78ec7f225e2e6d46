//! The facade: the handshake, the cached negotiated version, and the one
//! retry that a version refusal earns.

use vstd::prelude::*;
use vstd::string::*;
use crate::error::{Error, SpecError};
use crate::handler::{
    default_server_build, first_capability, lemma_bytes_path_matches_direct, lemma_exec_checks_version, lemma_exec_gate,
    spec_advertisement, spec_handle, spec_new_config, spec_pong, spec_register, SpecHandlerConfig,
};
use crate::mode::{spec_mode_from_env, EnvValue, Mode};
use crate::negotiate::{
    capability_admits, default_client_build, fold_capabilities, lemma_negotiate_picks_highest, negotiate,
    negotiated_result_view, spec_negotiate, ClientRequirements, Negotiated, SpecNegotiated, SpecRequirements,
};
use crate::ranges::spec_range_contains;
use crate::request_codec::{
    lemma_decode_encode_request, spec_encode_exec_request, spec_encode_register_request, spec_encode_request,
};
use crate::response_codec::{
    spec_encode_capabilities, spec_encode_capability, spec_encode_exec_response, spec_encode_limit,
    spec_encode_limits, spec_encode_ping_response, spec_encode_register_response, spec_encode_response,
    spec_encode_version_range,
};
use crate::text::{debug_form, debug_quoted, decimal, push_decimal};
use crate::transport::{
    loopback_reply, one_more_call, reply_outcome, response_result_view, round_trip, served_by, Exchange, Link,
    LoopbackTransport, Transport,
};
use crate::v1::{
    distinct_keys, error_code_of, exec_request, exec_response, request, response, ErrorCode, ExecRequest,
    PingRequest, RegisterRequest, Request, Response, SpecCapability, SpecExecResponse, SpecPingResponse,
    SpecRegisterRequest, SpecRequest, SpecResponse, VersionRange,
};
use crate::wire::{lemma_frame_len, lemma_string_field_len, lemma_u32_field_len, spec_frame};

verus! {

/// The operations a caller can perform. Nothing here says where the work
/// happens.
pub trait DoSomething {
    fn ping(&mut self) -> Result<String, Error>;
}

/* The requests the client sends */

pub open spec fn spec_register_request(client_build: Seq<char>) -> SpecRequest {
    SpecRequest { body: Some(request::SpecBody::Register(SpecRegisterRequest { client_build })) }
}

pub open spec fn spec_exec_ping_request(version: u32) -> SpecRequest {
    SpecRequest {
        body: Some(
            request::SpecBody::Exec(
                ExecRequest { negotiated_version: version, call: Some(exec_request::Call::Ping(PingRequest {})) },
            ),
        ),
    }
}

/// The bytes of the register call.
pub open spec fn register_bytes(client_build: Seq<char>) -> Seq<u8> {
    spec_encode_request(spec_register_request(client_build))
}

/// The bytes of a ping at `version`.
pub open spec fn exec_ping_bytes(version: u32) -> Seq<u8> {
    spec_encode_request(spec_exec_ping_request(version))
}

/* What the client makes of the answers */

/// The answer to the register call: a register response is negotiated
/// against, a refusal is the server's error, anything else breaks the
/// protocol.
pub open spec fn register_answer(reqs: SpecRequirements, response: Result<SpecResponse, SpecError>) -> Result<
    SpecNegotiated,
    SpecError,
> {
    match response {
        Err(e) => Err(e),
        Ok(r) => match r.body {
            None => Err(SpecError::Protocol("response has no body"@)),
            Some(response::SpecBody::Register(reg)) => spec_negotiate(reqs, reg),
            Some(response::SpecBody::Error(e)) => Err(
                SpecError::Server { code: error_code_of(e.code), message: e.message },
            ),
            Some(response::SpecBody::Exec(_)) => Err(
                SpecError::Protocol("server answered register with an exec response"@),
            ),
        },
    }
}

/// The answer to a ping: its message, the server's refusal, or a protocol
/// violation.
pub open spec fn exec_ping_answer(response: Result<SpecResponse, SpecError>) -> Result<Seq<char>, SpecError> {
    match response {
        Err(e) => Err(e),
        Ok(r) => match r.body {
            None => Err(SpecError::Protocol("response has no body"@)),
            Some(response::SpecBody::Exec(e)) => match e.output {
                Some(exec_response::SpecOutput::Ping(p)) => Ok(p.message),
                None => Err(SpecError::Protocol("exec response has no output"@)),
            },
            Some(response::SpecBody::Error(e)) => Err(
                SpecError::Server { code: error_code_of(e.code), message: e.message },
            ),
            Some(response::SpecBody::Register(_)) => Err(
                SpecError::Protocol("server answered exec with a register response"@),
            ),
        },
    }
}

/// The outcome of the register call, given what the transport brought back.
#[verifier::opaque]
pub open spec fn register_outcome(reqs: SpecRequirements, reply: Result<Seq<u8>, Seq<char>>) -> Result<
    SpecNegotiated,
    SpecError,
> {
    register_answer(reqs, reply_outcome(reply))
}

/// The outcome of a ping, given what the transport brought back.
#[verifier::opaque]
pub open spec fn exec_ping_outcome(reply: Result<Seq<u8>, Seq<char>>) -> Result<Seq<char>, SpecError> {
    exec_ping_answer(reply_outcome(reply))
}

/// The refusal that earns a renegotiation.
pub open spec fn is_version_refusal(r: Result<Seq<char>, SpecError>) -> bool {
    r matches Err(SpecError::Server { code, .. }) && code == ErrorCode::UnsupportedVersion
}

/// One ping, as a run over the exchanges it made: a ping at the cached
/// version; on a version refusal, one register call and, if that negotiates,
/// one more ping at the new version. `after` is the cached outcome of
/// negotiation afterwards.
pub open spec fn ping_run(
    reqs: SpecRequirements,
    before: SpecNegotiated,
    exchanges: Seq<Exchange>,
    result: Result<Seq<char>, SpecError>,
    after: SpecNegotiated,
) -> bool {
    &&& exchanges.len() >= 1
    &&& exchanges[0].request == exec_ping_bytes(before.version)
    &&& if !is_version_refusal(exec_ping_outcome(exchanges[0].reply)) {
        &&& exchanges.len() == 1
        &&& result == exec_ping_outcome(exchanges[0].reply)
        &&& after == before
    } else {
        &&& exchanges.len() >= 2
        &&& exchanges[1].request == register_bytes(reqs.client_build)
        &&& match register_outcome(reqs, exchanges[1].reply) {
            Err(e) => {
                &&& exchanges.len() == 2
                &&& result == Err::<Seq<char>, SpecError>(e)
                &&& after == before
            },
            Ok(n) => {
                &&& exchanges.len() == 3
                &&& after == n
                &&& exchanges[2].request == exec_ping_bytes(n.version)
                &&& result == exec_ping_outcome(exchanges[2].reply)
            },
        }
    }
}

pub open spec fn string_result_view(r: Result<String, Error>) -> Result<Seq<char>, SpecError> {
    match r {
        Ok(s) => Ok(s@),
        Err(e) => Err(e@),
    }
}

/* The facade */

/// Holds the transport and the cached handshake.
pub struct Something {
    link: Link,
    requirements: ClientRequirements,
    negotiated: Negotiated,
}

pub struct SpecSomething {
    pub requirements: SpecRequirements,
    pub negotiated: SpecNegotiated,
    /// Every call made through the transport, in order.
    pub exchanges: Seq<Exchange>,
    /// For a local client, the configuration of its in-process server.
    pub server: Option<SpecHandlerConfig>,
}

impl View for Something {
    type V = SpecSomething;

    closed spec fn view(&self) -> SpecSomething {
        SpecSomething {
            requirements: self.requirements@,
            negotiated: self.negotiated@,
            exchanges: self.link@.calls,
            server: self.link@.server,
        }
    }
}

/// The in-process server with `config` serves a ping at version `v`.
pub open spec fn serves_ping(config: SpecHandlerConfig, v: u32) -> bool {
    &&& v != 0
    &&& spec_range_contains(config.inbound, v)
    &&& spec_range_contains(config.outbound, v)
    &&& first_capability(config.capabilities, "ping"@) matches Some(c) && c.min_version <= v <= c.max_version
}

/// `Debug`'s form of a client whose transport describes itself as
/// `transport`.
pub open spec fn something_debug_text(transport: Seq<char>, negotiated: SpecNegotiated) -> Seq<char> {
    "Something { transport: "@ + debug_form(transport) + ", negotiated_version: "@ + decimal(
        negotiated.version as nat,
    ) + ", server_build: "@ + debug_form(negotiated.server_build) + " }"@
}

/// A client fresh from a handshake over its one exchange.
pub open spec fn connected(s: SpecSomething, reqs: SpecRequirements) -> bool {
    &&& s.requirements == reqs
    &&& s.exchanges.len() == 1
    &&& s.exchanges[0].request == register_bytes(reqs.client_build)
    &&& register_outcome(reqs, s.exchanges[0].reply) == Ok::<SpecNegotiated, SpecError>(s.negotiated)
}

/// The requirements of a client built by mode.
pub open spec fn default_requirements() -> SpecRequirements {
    SpecRequirements {
        protocol_min: 1,
        protocol_max: 1,
        required_capabilities: seq!["ping"@],
        client_build: default_client_build(),
    }
}

/// What the in-process server of local mode answers to its register call.
pub open spec fn local_register_reply() -> Result<Seq<u8>, Seq<char>> {
    loopback_reply(spec_new_config(default_server_build()), register_bytes(default_client_build()))
}

pub open spec fn remote_unavailable_text() -> Seq<char> {
    "remote mode needs a remote transport, which this library does not build: pass one to connect"@
}

/// What building a client in `mode` gives: local mode always connects, at
/// protocol version 1, to the in-process server.
pub open spec fn with_mode_result(mode: Mode, r: Result<Something, Error>) -> bool {
    match mode {
        Mode::Local => r matches Ok(s) && {
            &&& connected(s@, default_requirements())
            &&& s@.server == Some(spec_new_config(default_server_build()))
            &&& s@.exchanges[0].reply == local_register_reply()
            &&& s@.negotiated == (SpecNegotiated { version: 1, server_build: default_server_build() })
        },
        Mode::Remote => r matches Err(e) && e@ == SpecError::Config(remote_unavailable_text()),
    }
}

/* What the client guarantees */

/// A version refusal earns exactly one renegotiation and one retry: a ping
/// makes at most three calls, more than one only after a refusal, and what
/// the retry brings back is the answer, refusal or not.
pub proof fn lemma_ping_retries_once(
    reqs: SpecRequirements,
    before: SpecNegotiated,
    exchanges: Seq<Exchange>,
    result: Result<Seq<char>, SpecError>,
    after: SpecNegotiated,
)
    requires
        ping_run(reqs, before, exchanges, result, after),
    ensures
        1 <= exchanges.len() <= 3,
        exchanges.len() > 1 <==> is_version_refusal(exec_ping_outcome(exchanges[0].reply)),
        exchanges.len() == 3 ==> result == exec_ping_outcome(exchanges[2].reply),
        after != before ==> exchanges.len() == 3,
{
}

/// An in-process server answers a ping at a version it serves with `pong`:
/// the request and the answer both go through the encoding and back.
pub proof fn lemma_loopback_ping(config: SpecHandlerConfig, v: u32)
    requires
        distinct_keys(config.limits),
        v != 0,
        spec_range_contains(config.inbound, v),
        spec_range_contains(config.outbound, v),
        first_capability(config.capabilities, "ping"@) matches Some(c) && c.min_version <= v <= c.max_version,
    ensures
        exec_ping_outcome(loopback_reply(config, exec_ping_bytes(v))) == Ok::<Seq<char>, SpecError>("pong"@),
{
    reveal(exec_ping_outcome);
    let req = spec_exec_ping_request(v);
    let exec = ExecRequest { negotiated_version: v, call: Some(exec_request::Call::Ping(PingRequest {})) };
    lemma_u32_field_len(1, v);
    lemma_frame_len(2, Seq::<u8>::empty());
    lemma_frame_len(2, spec_encode_exec_request(exec));
    lemma_exec_checks_version(config, exec);
    assert(spec_handle(config, req) == spec_pong());
    reveal_strlit("pong");
    let ping = SpecPingResponse { message: "pong"@ };
    lemma_string_field_len(1, "pong"@);
    lemma_frame_len(1, spec_encode_ping_response(ping));
    lemma_frame_len(2, spec_encode_exec_response(SpecExecResponse { output: Some(exec_response::SpecOutput::Ping(ping)) }));
    lemma_bytes_path_matches_direct(config, req);
}


/// Negotiating with an in-process server gives exactly what negotiating
/// against the server's own description gives: the register call and its
/// answer go through the encoding and back unchanged.
pub proof fn lemma_loopback_register(config: SpecHandlerConfig, reqs: SpecRequirements)
    requires
        distinct_keys(config.limits),
        register_bytes(reqs.client_build).len() < 0x1_0000_0000_0000_0000,
        spec_encode_response(spec_register(config)).len() < 0x1_0000_0000_0000_0000,
    ensures
        spec_register(config).body matches Some(response::SpecBody::Register(reg)) && register_outcome(
            reqs,
            loopback_reply(config, register_bytes(reqs.client_build)),
        ) == spec_negotiate(reqs, reg),
{
    reveal(register_outcome);
    lemma_bytes_path_matches_direct(config, spec_register_request(reqs.client_build));
}

proof fn lemma_local_register_sizes()
    ensures
        register_bytes(default_client_build()).len() < 200,
        spec_encode_response(spec_register(spec_new_config(default_server_build()))).len() < 1000,
{
    let config = spec_new_config(default_server_build());
    reveal_strlit("something-core/0.1.0");
    reveal_strlit("something-client/0.1.0");
    reveal_strlit("ping");
    reveal_strlit("max_payload_bytes");
    reveal_strlit("6291456");
    lemma_string_field_len(1, default_client_build());
    lemma_frame_len(1, spec_encode_register_request(SpecRegisterRequest { client_build: default_client_build() }));
    let ping = SpecCapability { name: "ping"@, min_version: 1, max_version: 1 };
    let one = VersionRange { min: 1, max: 1 };
    let limit = ("max_payload_bytes"@, "6291456"@);
    lemma_string_field_len(1, "ping"@);
    lemma_u32_field_len(2, 1);
    lemma_u32_field_len(3, 1);
    lemma_frame_len(2, spec_encode_capability(ping));
    assert(config.capabilities.drop_first() =~= Seq::<SpecCapability>::empty());
    assert(spec_encode_capabilities(config.capabilities.drop_first()) =~= Seq::<u8>::empty());
    assert(spec_encode_capabilities(config.capabilities) =~= spec_frame(2, spec_encode_capability(ping)));
    lemma_u32_field_len(1, 1);
    lemma_frame_len(3, spec_encode_version_range(one));
    lemma_frame_len(4, spec_encode_version_range(one));
    lemma_string_field_len(1, limit.0);
    lemma_string_field_len(2, limit.1);
    lemma_frame_len(5, spec_encode_limit(limit));
    assert(config.limits.drop_first() =~= Seq::<(Seq<char>, Seq<char>)>::empty());
    assert(spec_encode_limits(config.limits.drop_first()) =~= Seq::<u8>::empty());
    assert(spec_encode_limits(config.limits) =~= spec_frame(5, spec_encode_limit(limit)));
    lemma_string_field_len(1, default_server_build());
    let reg = spec_register(config).body->Some_0->Register_0;
    lemma_frame_len(1, spec_encode_register_response(reg));
}

proof fn lemma_local_negotiation()
    ensures
        spec_register(spec_new_config(default_server_build())).body matches Some(response::SpecBody::Register(reg))
            && spec_negotiate(default_requirements(), reg) == Ok::<SpecNegotiated, SpecError>(
            SpecNegotiated { version: 1, server_build: default_server_build() },
        ),
{
    let config = spec_new_config(default_server_build());
    let reqs = default_requirements();
    let caps = config.capabilities;
    let names = reqs.required_capabilities;
    assert(names[0] == "ping"@);
    assert(crate::handler::capability_index(caps, "ping"@, 0) == 0);
    assert(first_capability(caps, names[0]) == Some(caps[0]));
    assert(names.drop_first() =~= Seq::<Seq<char>>::empty());
    assert(fold_capabilities(caps, names.drop_first(), 1, 1) == Ok::<(int, int), Seq<char>>((1, 1)));
    assert(fold_capabilities(caps, names, 1, 1) == Ok::<(int, int), Seq<char>>((1, 1)));
}

/// Local mode connects: its in-process server and its requirements agree on
/// protocol version 1, and the client learns the server's build.
pub proof fn lemma_local_mode_connects()
    ensures
        register_outcome(default_requirements(), local_register_reply()) == Ok::<SpecNegotiated, SpecError>(
            SpecNegotiated { version: 1, server_build: default_server_build() },
        ),
{
    lemma_local_register_sizes();
    lemma_local_negotiation();
    lemma_loopback_register(spec_new_config(default_server_build()), default_requirements());
}

/// Local mode pings `pong` in one call: its in-process server, whose limits
/// name each key once, serves the version that the handshake agrees on, so
/// the contracts of `with_mode` and `ping` give a local client `pong`.
pub proof fn lemma_local_mode_pongs()
    ensures
        distinct_keys(spec_new_config(default_server_build()).limits),
        serves_ping(spec_new_config(default_server_build()), 1),
{
    let config = spec_new_config(default_server_build());
    reveal_strlit("ping");
    assert(crate::handler::capability_index(config.capabilities, "ping"@, 0) == 0);
}

/// An in-process server refuses a ping whose version its own ranges admit
/// but the first ping capability does not cover, below its range or above
/// it, with the refusal that earns the client one renegotiation: the
/// capability's range is a range of protocol versions.
pub proof fn lemma_capability_refusal_renegotiates(config: SpecHandlerConfig, v: u32, k: int)
    requires
        distinct_keys(config.limits),
        v != 0,
        spec_range_contains(config.inbound, v),
        spec_range_contains(config.outbound, v),
        0 <= k < config.capabilities.len(),
        config.capabilities[k].name == "ping"@,
        forall|j: int| 0 <= j < k ==> #[trigger] config.capabilities[j].name != "ping"@,
        v < config.capabilities[k].min_version || v > config.capabilities[k].max_version,
        spec_encode_response(spec_handle(config, spec_exec_ping_request(v))).len() < 0x1_0000_0000_0000_0000,
    ensures
        is_version_refusal(exec_ping_outcome(loopback_reply(config, exec_ping_bytes(v)))),
{
    reveal(exec_ping_outcome);
    let exec = ExecRequest { negotiated_version: v, call: Some(exec_request::Call::Ping(PingRequest {})) };
    lemma_u32_field_len(1, v);
    lemma_frame_len(2, Seq::<u8>::empty());
    lemma_frame_len(2, spec_encode_exec_request(exec));
    lemma_exec_gate(config, exec, k);
    lemma_bytes_path_matches_direct(config, spec_exec_ping_request(v));
}

/// A server redeployed without the cached version refuses the ping; the
/// client then renegotiates with it and the one retry gets `pong`, at the
/// version the new server agrees to.
pub proof fn lemma_loopback_renegotiates(
    config: SpecHandlerConfig,
    reqs: SpecRequirements,
    before: SpecNegotiated,
    exchanges: Seq<Exchange>,
    result: Result<Seq<char>, SpecError>,
    after: SpecNegotiated,
)
    requires
        distinct_keys(config.limits),
        before.version != 0,
        !(spec_range_contains(config.inbound, before.version) && spec_range_contains(
            config.outbound,
            before.version,
        )),
        reqs.protocol_min >= 1,
        reqs.required_capabilities.contains("ping"@),
        spec_encode_response(spec_handle(config, spec_exec_ping_request(before.version))).len()
            < 0x1_0000_0000_0000_0000,
        register_bytes(reqs.client_build).len() < 0x1_0000_0000_0000_0000,
        spec_encode_response(spec_register(config)).len() < 0x1_0000_0000_0000_0000,
        spec_register(config).body matches Some(response::SpecBody::Register(reg)) && spec_negotiate(reqs, reg) is Ok,
        ping_run(reqs, before, exchanges, result, after),
        forall|i: int| 0 <= i < exchanges.len() ==> #[trigger] exchanges[i].reply == loopback_reply(config, exchanges[i].request),
    ensures
        exchanges.len() == 3,
        result == Ok::<Seq<char>, SpecError>("pong"@),
        spec_register(config).body matches Some(response::SpecBody::Register(reg)) && spec_negotiate(reqs, reg)
            == Ok::<SpecNegotiated, SpecError>(after),
{
    reveal(exec_ping_outcome);
    let reg = spec_register(config).body->Some_0->Register_0;
    let exec = ExecRequest { negotiated_version: before.version, call: Some(exec_request::Call::Ping(PingRequest {})) };
    // The first ping is refused for its version.
    lemma_u32_field_len(1, before.version);
    lemma_frame_len(2, Seq::<u8>::empty());
    lemma_frame_len(2, spec_encode_exec_request(exec));
    lemma_exec_checks_version(config, exec);
    lemma_bytes_path_matches_direct(config, spec_exec_ping_request(before.version));
    assert(exchanges[0].reply == loopback_reply(config, exchanges[0].request));
    assert(is_version_refusal(exec_ping_outcome(exchanges[0].reply)));
    // The register call negotiates what the new server describes.
    assert(exchanges[1].reply == loopback_reply(config, exchanges[1].request));
    lemma_loopback_register(config, reqs);
    let n = spec_negotiate(reqs, reg)->Ok_0;
    // The new version is one the server serves ping at.
    lemma_negotiate_picks_highest(reqs, reg);
    let k = choose|k: int| 0 <= k < reqs.required_capabilities.len() && reqs.required_capabilities[k] == "ping"@;
    assert(capability_admits(reg.capabilities, reqs.required_capabilities[k], n.version as int));
    assert(exchanges[2].reply == loopback_reply(config, exchanges[2].request));
    lemma_loopback_ping(config, n.version);
}

fn register_request(requirements: &ClientRequirements) -> (r: Request)
    ensures
        r@ == spec_register_request(requirements@.client_build),
{
    Request { body: Some(request::Body::Register(RegisterRequest { client_build: requirements.client_build.clone() })) }
}

fn exec_ping_request(version: u32) -> (r: Request)
    ensures
        r@ == spec_exec_ping_request(version),
{
    Request {
        body: Some(
            request::Body::Exec(
                ExecRequest { negotiated_version: version, call: Some(exec_request::Call::Ping(PingRequest {})) },
            ),
        ),
    }
}

/// Negotiates against the answer to the register call.
pub fn answer_register(requirements: &ClientRequirements, response: Result<Response, Error>) -> (r: Result<Negotiated, Error>)
    ensures
        negotiated_result_view(r) == register_answer(requirements@, response_result_view(response)),
{
    let response = match response {
        Ok(response) => response,
        Err(e) => return Err(e),
    };
    match response.body {
        None => Err(Error::Protocol("response has no body".to_owned())),
        Some(response::Body::Register(register)) => negotiate(requirements, &register),
        Some(response::Body::Error(err)) => {
            let code = err.code();
            Err(Error::Server { code, message: err.message })
        },
        Some(response::Body::Exec(_)) => Err(Error::Protocol("server answered register with an exec response".to_owned())),
    }
}

/// The message of a ping's answer, or what went wrong.
pub fn answer_exec_ping(response: Result<Response, Error>) -> (r: Result<String, Error>)
    ensures
        string_result_view(r) == exec_ping_answer(response_result_view(response)),
{
    let response = match response {
        Ok(response) => response,
        Err(e) => return Err(e),
    };
    match response.body {
        None => Err(Error::Protocol("response has no body".to_owned())),
        Some(response::Body::Exec(exec)) => match exec.output {
            Some(exec_response::Output::Ping(ping)) => Ok(ping.message),
            None => Err(Error::Protocol("exec response has no output".to_owned())),
        },
        Some(response::Body::Error(err)) => {
            let code = err.code();
            Err(Error::Server { code, message: err.message })
        },
        Some(response::Body::Register(_)) => Err(Error::Protocol("server answered exec with a register response".to_owned())),
    }
}

impl Something {
    /// Builds a client for the mode that `SOMETHING_MODE` selects (`local`
    /// when it is not set).
    pub fn from_env(value: EnvValue) -> (r: Result<Self, Error>)
        ensures
            match spec_mode_from_env(value@) {
                Ok(mode) => with_mode_result(mode, r),
                Err(e) => r matches Err(err) && err@ == e,
            },
    {
        match Mode::from_env(value) {
            Ok(mode) => Something::with_mode(mode),
            Err(e) => Err(e),
        }
    }

    /// Explicit mode. Local mode talks to an in-process server through the
    /// full encode and decode path. This library has no remote transport of
    /// its own: a remote client is built by handing one to `connect`.
    pub fn with_mode(mode: Mode) -> (r: Result<Self, Error>)
        ensures
            with_mode_result(mode, r),
    {
        match mode {
            Mode::Local => Something::local(),
            Mode::Remote => Err(
                Error::Config(
                    "remote mode needs a remote transport, which this library does not build: pass one to connect".to_owned(),
                ),
            ),
        }
    }

    fn local() -> (r: Result<Self, Error>)
        ensures
            with_mode_result(Mode::Local, r),
    {
        let r = Something::connect_local(LoopbackTransport::default(), ClientRequirements::default());
        proof {
            lemma_local_negotiation();
            reveal(served_by);
        }
        r
    }

    /// The handshake with an in-process server, which the client keeps as
    /// its server: what it answers is then known, in the handshake and in
    /// every later ping.
    pub fn connect_local(transport: LoopbackTransport, requirements: ClientRequirements) -> (r: Result<Self, Error>)
        ensures
            match r {
                Ok(s) => {
                    &&& connected(s@, requirements@)
                    &&& s@.server == Some(transport@)
                    &&& s@.exchanges[0].reply == loopback_reply(transport@, s@.exchanges[0].request)
                    &&& spec_negotiate(requirements@, spec_advertisement(transport@)) == Ok::<SpecNegotiated, SpecError>(
                        s@.negotiated,
                    )
                },
                Err(e) => spec_negotiate(requirements@, spec_advertisement(transport@)) == Err::<SpecNegotiated, SpecError>(
                    e@,
                ),
            },
    {
        let ghost config = transport@;
        let mut link = Link::local(transport);
        let negotiated = Something::register(&mut link, &requirements);
        proof {
            reveal(served_by);
            lemma_decode_encode_request(spec_register_request(requirements@.client_build));
            lemma_loopback_register(config, requirements@);
            assert(link@.calls =~= seq![link@.calls.last()]);
        }
        match negotiated {
            Ok(negotiated) => Ok(Something { link, requirements, negotiated }),
            Err(e) => Err(e),
        }
    }

    /// Performs the handshake and caches its result, so that a misconfigured
    /// client fails at construction rather than on its first real call.
    pub fn connect(transport: Box<dyn Transport>, requirements: ClientRequirements) -> (r: Result<Self, Error>)
        ensures
            match r {
                Ok(s) => connected(s@, requirements@) && s@.server is None,
                Err(e) => exists|reply: Result<Seq<u8>, Seq<char>>|
                    #[trigger] register_outcome(requirements@, reply) == Err::<SpecNegotiated, SpecError>(e@),
            },
    {
        let mut link = Link::remote(transport);
        let negotiated = Something::register(&mut link, &requirements);
        match negotiated {
            Ok(negotiated) => {
                assert(link@.calls =~= seq![link@.calls.last()]);
                Ok(Something { link, requirements, negotiated })
            },
            Err(e) => Err(e),
        }
    }

    pub fn negotiated_version(&self) -> (r: u32)
        ensures
            r == self@.negotiated.version,
    {
        self.negotiated.version
    }

    pub fn server_build(&self) -> (r: String)
        ensures
            r@ == self@.negotiated.server_build,
    {
        self.negotiated.server_build.clone()
    }

    /// Where calls go, as the transport describes itself: `loopback(build)`
    /// for a local client. A transport handed to `connect` may be any
    /// implementation of `Transport`, whose `describe` promises nothing.
    pub fn transport_description(&self) -> (r: String)
        ensures
            self@.server matches Some(config) ==> r@ == "loopback("@ + config.build + ")"@,
    {
        self.link.describe()
    }

    /// The three things worth seeing in a log line: where calls go, and what
    /// was agreed, in the form `Debug` gives a struct.
    pub fn debug_string(&self) -> (r: String)
        ensures
            exists|transport: Seq<char>| r@ == #[trigger] something_debug_text(transport, self@.negotiated),
            self@.server matches Some(config) ==> r@ == something_debug_text(
                "loopback("@ + config.build + ")"@,
                self@.negotiated,
            ),
    {
        let transport = self.link.describe();
        let mut r = "Something { transport: ".to_owned();
        r.append(debug_quoted(transport.as_str()).as_str());
        r.append(", negotiated_version: ");
        push_decimal(&mut r, self.negotiated.version as u64);
        r.append(", server_build: ");
        r.append(debug_quoted(self.negotiated.server_build.as_str()).as_str());
        r.append(" }");
        assert(r@ =~= something_debug_text(transport@, self@.negotiated));
        r
    }

    /// The register call: one call, with the register request's bytes.
    fn register(link: &mut Link, requirements: &ClientRequirements) -> (r: Result<Negotiated, Error>)
        ensures
            one_more_call(old(link)@, final(link)@, register_bytes(requirements@.client_build)),
            negotiated_result_view(r) == register_outcome(requirements@, final(link)@.calls.last().reply),
    {
        let response = round_trip(link, register_request(requirements));
        proof {
            reveal(register_outcome);
        }
        answer_register(requirements, response)
    }

    /// A ping at `version`: one call, with the ping request's bytes.
    fn exec_ping(link: &mut Link, version: u32) -> (r: Result<String, Error>)
        ensures
            one_more_call(old(link)@, final(link)@, exec_ping_bytes(version)),
            string_result_view(r) == exec_ping_outcome(final(link)@.calls.last().reply),
    {
        let response = round_trip(link, exec_ping_request(version));
        proof {
            reveal(exec_ping_outcome);
        }
        answer_exec_ping(response)
    }
}

impl DoSomething for Something {
    /// The handshake is a snapshot, and a redeploy can invalidate it between
    /// calls. So a version refusal is not a failure yet: re-register once,
    /// retry once, and only then give up. Exactly once, because a server that
    /// rejects a freshly negotiated version is broken or flapping, and
    /// looping would turn that into a storm. The calls it makes are those the
    /// transport records, so their number is bound by `ping_run`.
    fn ping(&mut self) -> (r: Result<String, Error>)
        ensures
            final(self)@.requirements == old(self)@.requirements,
            final(self)@.server == old(self)@.server,
            final(self)@.exchanges.len() > old(self)@.exchanges.len(),
            final(self)@.exchanges.take(old(self)@.exchanges.len() as int) == old(self)@.exchanges,
            ping_run(
                old(self)@.requirements,
                old(self)@.negotiated,
                final(self)@.exchanges.skip(old(self)@.exchanges.len() as int),
                string_result_view(r),
                final(self)@.negotiated,
            ),
            forall|i: int|
                old(self)@.exchanges.len() <= i < final(self)@.exchanges.len() ==> served_by(
                    old(self)@.server,
                    #[trigger] final(self)@.exchanges[i],
                ),
            old(self)@.server matches Some(config) && serves_ping(config, old(self)@.negotiated.version) ==> {
                &&& string_result_view(r) == Ok::<Seq<char>, SpecError>("pong"@)
                &&& final(self)@.exchanges.len() == old(self)@.exchanges.len() + 1
                &&& final(self)@.negotiated == old(self)@.negotiated
            },
    {
        let ghost start = self.link@.calls;
        let ghost server = self.link@.server;
        let version = self.negotiated.version;
        let first = Something::exec_ping(&mut self.link, version);
        let ghost c1 = self.link@.calls;
        proof {
            if let Some(config) = server {
                reveal(served_by);
                if serves_ping(config, version) {
                    lemma_loopback_ping(config, version);
                    assert(exec_ping_outcome(c1.last().reply) == Ok::<Seq<char>, SpecError>("pong"@));
                }
            }
        }
        let refused = match &first {
            Err(err) => err.is_unsupported_version(),
            Ok(_) => false,
        };
        if !refused {
            proof {
                assert(c1.skip(start.len() as int) =~= seq![c1.last()]);
                assert(c1.take(start.len() as int) =~= start);
            }
            return first;
        }
        let renegotiated = Something::register(&mut self.link, &self.requirements);
        let ghost c2 = self.link@.calls;
        let renegotiated = match renegotiated {
            Ok(n) => n,
            Err(e) => {
                proof {
                    assert(c2.skip(start.len() as int) =~= seq![c1.last(), c2.last()]);
                    assert(c2.take(start.len() as int) =~= start);
                }
                return Err(e);
            },
        };
        let version = renegotiated.version;
        self.negotiated = renegotiated;
        let second = Something::exec_ping(&mut self.link, version);
        let ghost c3 = self.link@.calls;
        proof {
            assert(c3.skip(start.len() as int) =~= seq![c1.last(), c2.last(), c3.last()]);
            assert(c3.take(start.len() as int) =~= start);
        }
        second
    }
}

} // verus!
