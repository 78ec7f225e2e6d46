//! The server half of the protocol: a pure function from request bytes to
//! response bytes.
//!
//! It has no transport of its own, which is what lets the same code answer an
//! in-process call and a remote invocation alike.

use vstd::prelude::*;
use vstd::string::*;
use crate::ranges::{push_range, range_contains, range_text, spec_range_contains};
use crate::request_codec::{lemma_decode_encode_request, spec_decode_request, spec_encode_request};
use crate::response_codec::{lemma_decode_encode_response, response_well_formed, spec_decode_response, spec_encode_response};
use crate::text::{decimal, push_decimal};
use crate::v1::{
    capabilities_view, exec_request, exec_response, request, response, Capability, ErrorCode,
    ErrorResponse, ExecRequest, ExecResponse, Limits, PingResponse, RegisterResponse, Request,
    Response, SpecCapability, SpecErrorResponse, SpecRequest, distinct_keys, SpecExecResponse, SpecPingResponse,
    SpecRegisterResponse, SpecResponse, VersionRange, error_code_number,
};

verus! {

/// What this server advertises about itself.
#[derive(Debug)]
pub struct HandlerConfig {
    /// Opaque build identifier, echoed to clients for diagnostics.
    pub build: String,
    /// Request versions this server accepts.
    pub inbound: VersionRange,
    /// Response versions this server can emit.
    pub outbound: VersionRange,
    pub capabilities: Vec<Capability>,
    /// Informational only (e.g. max payload bytes); never enforced by clients.
    pub limits: Limits,
}

pub struct SpecHandlerConfig {
    pub build: Seq<char>,
    pub inbound: VersionRange,
    pub outbound: VersionRange,
    pub capabilities: Seq<SpecCapability>,
    pub limits: Seq<(Seq<char>, Seq<char>)>,
}

impl View for HandlerConfig {
    type V = SpecHandlerConfig;

    open spec fn view(&self) -> SpecHandlerConfig {
        SpecHandlerConfig {
            build: self.build@,
            inbound: self.inbound,
            outbound: self.outbound,
            capabilities: capabilities_view(self.capabilities@),
            limits: self.limits@,
        }
    }
}

/// The build that a default server reports.
pub open spec fn default_server_build() -> Seq<char> {
    "something-core/0.1.0"@
}

/// The configuration `HandlerConfig::new(build)` makes: protocol 1 in both
/// directions, the ping capability at version 1, and the payload ceiling of
/// a synchronous invocation as its one limit.
pub open spec fn spec_new_config(build: Seq<char>) -> SpecHandlerConfig {
    SpecHandlerConfig {
        build,
        inbound: VersionRange { min: 1, max: 1 },
        outbound: VersionRange { min: 1, max: 1 },
        capabilities: seq![SpecCapability { name: "ping"@, min_version: 1, max_version: 1 }],
        limits: seq![("max_payload_bytes"@, "6291456"@)],
    }
}

/// The first index at or after `i` of a capability named `name`, or the
/// length when there is none.
pub open spec fn capability_index(caps: Seq<SpecCapability>, name: Seq<char>, i: int) -> int
    decreases caps.len() - i,
{
    if i < 0 || i >= caps.len() {
        caps.len() as int
    } else if caps[i].name == name {
        i
    } else {
        capability_index(caps, name, i + 1)
    }
}

/// The first capability named `name`.
pub open spec fn first_capability(caps: Seq<SpecCapability>, name: Seq<char>) -> Option<SpecCapability> {
    let j = capability_index(caps, name, 0);
    if j < caps.len() {
        Some(caps[j])
    } else {
        None
    }
}

/// Helper for building capability entries in configs and tests.
pub fn capability(name: &str, min_version: u32, max_version: u32) -> (r: Capability)
    ensures
        r@ == (SpecCapability { name: name@, min_version, max_version }),
{
    Capability { name: name.to_owned(), min_version, max_version }
}

/// The first capability in `caps` called `name`.
pub fn find_capability<'a>(caps: &'a Vec<Capability>, name: &str) -> (r: Option<&'a Capability>)
    ensures
        match r {
            Some(c) => first_capability(capabilities_view(caps@), name@) == Some(c@),
            None => first_capability(capabilities_view(caps@), name@) is None,
        },
{
    let wanted = name.to_owned();
    let ghost cv = capabilities_view(caps@);
    let mut i: usize = 0;
    while i < caps.len()
        invariant
            i <= caps@.len(),
            wanted@ == name@,
            cv == capabilities_view(caps@),
            capability_index(cv, name@, 0) == capability_index(cv, name@, i as int),
        decreases caps@.len() - i,
    {
        if caps[i].name == wanted {
            return Some(&caps[i]);
        }
        i = i + 1;
    }
    None
}

pub fn clone_capabilities(caps: &Vec<Capability>) -> (r: Vec<Capability>)
    ensures
        capabilities_view(r@) == capabilities_view(caps@),
{
    let mut out: Vec<Capability> = Vec::new();
    let mut i: usize = 0;
    while i < caps.len()
        invariant
            i <= caps@.len(),
            capabilities_view(out@) == capabilities_view(caps@.take(i as int)),
        decreases caps@.len() - i,
    {
        let c = caps[i].clone();
        let ghost before = out@;
        out.push(c);
        assert(caps@.take(i + 1) =~= caps@.take(i as int).push(caps@[i as int]));
        assert(capabilities_view(out@) =~= capabilities_view(before).push(c@));
        assert(capabilities_view(caps@.take(i + 1)) =~= capabilities_view(caps@.take(i as int)).push(caps@[i as int]@));
        i = i + 1;
    }
    assert(caps@.take(i as int) =~= caps@);
    out
}

impl HandlerConfig {
    /// The server of this protocol's first release: protocol `1..=1`, one
    /// capability.
    pub fn new(build: &str) -> (r: Self)
        ensures
            r@ == spec_new_config(build@),
    {
        let mut limits = Limits::new();
        // The synchronous invocation ceiling, advertised so that a client can
        // fail fast on an oversized input.
        limits.insert("max_payload_bytes".to_owned(), "6291456".to_owned());
        let mut capabilities: Vec<Capability> = Vec::new();
        capabilities.push(capability("ping", 1, 1));
        let r = HandlerConfig {
            build: build.to_owned(),
            inbound: VersionRange { min: 1, max: 1 },
            outbound: VersionRange { min: 1, max: 1 },
            capabilities,
            limits,
        };
        proof {
            assert(crate::v1::find_key(Seq::<(Seq<char>, Seq<char>)>::empty(), "max_payload_bytes"@, 0) == 0);
        }
        assert(r@.capabilities =~= spec_new_config(build@).capabilities);
        assert(r@.limits =~= spec_new_config(build@).limits);
        r
    }

    /// Both protocol ranges at once. Capability ranges are left as they are:
    /// widening the protocol does not claim that a capability works at a
    /// version nobody implemented it for.
    pub fn with_protocol_range(self, min: u32, max: u32) -> (r: Self)
        ensures
            r@ == (SpecHandlerConfig {
                inbound: VersionRange { min, max },
                outbound: VersionRange { min, max },
                ..self@
            }),
    {
        HandlerConfig { inbound: VersionRange { min, max }, outbound: VersionRange { min, max }, ..self }
    }

    /// Replaces the capabilities.
    pub fn with_capabilities(self, capabilities: Vec<Capability>) -> (r: Self)
        ensures
            r@ == (SpecHandlerConfig { capabilities: capabilities_view(capabilities@), ..self@ }),
    {
        HandlerConfig { capabilities, ..self }
    }

    /// The first capability called `name`.
    fn capability(&self, name: &str) -> (r: Option<&Capability>)
        ensures
            match r {
                Some(c) => first_capability(self@.capabilities, name@) == Some(c@),
                None => first_capability(self@.capabilities, name@) is None,
            },
    {
        find_capability(&self.capabilities, name)
    }
}

impl Clone for HandlerConfig {
    fn clone(&self) -> (r: Self)
        ensures
            r@ == self@,
    {
        HandlerConfig {
            build: self.build.clone(),
            inbound: self.inbound,
            outbound: self.outbound,
            capabilities: clone_capabilities(&self.capabilities),
            limits: self.limits.clone(),
        }
    }
}

impl Default for HandlerConfig {
    fn default() -> (r: Self)
        ensures
            r@ == spec_new_config(default_server_build()),
    {
        HandlerConfig::new("something-core/0.1.0")
    }
}

/* What the server answers */

/// A refusal with `code` and `message`.
pub open spec fn spec_error(code: ErrorCode, message: Seq<char>) -> SpecResponse {
    SpecResponse {
        body: Some(response::SpecBody::Error(SpecErrorResponse { code: error_code_number(code), message })),
    }
}

/// The answer to a ping that passed every check.
pub open spec fn spec_pong() -> SpecResponse {
    SpecResponse {
        body: Some(
            response::SpecBody::Exec(
                SpecExecResponse { output: Some(exec_response::SpecOutput::Ping(SpecPingResponse { message: "pong"@ })) },
            ),
        ),
    }
}

/// Registration describes the server and decides nothing.
pub open spec fn spec_register(config: SpecHandlerConfig) -> SpecResponse {
    SpecResponse { body: Some(response::SpecBody::Register(spec_advertisement(config))) }
}

/// What a server with `config` says of itself when a client registers.
pub open spec fn spec_advertisement(config: SpecHandlerConfig) -> SpecRegisterResponse {
    SpecRegisterResponse {
        build: config.build,
        capabilities: config.capabilities,
        inbound: Some(config.inbound),
        outbound: Some(config.outbound),
        limits: config.limits,
    }
}

pub open spec fn no_body_text() -> Seq<char> {
    "request has no body; expected register or exec"@
}

pub open spec fn missing_version_text() -> Seq<char> {
    "exec requires negotiated_version; 0 means the client skipped negotiation"@
}

pub open spec fn no_call_text() -> Seq<char> {
    "exec has no call; expected ping"@
}

pub open spec fn undecodable_text() -> Seq<char> {
    "undecodable request: failed to decode Protobuf message"@
}

/// Names the version and both server ranges, so that the reader can tell
/// which side has to move.
pub open spec fn unsupported_version_text(version: u32, inbound: VersionRange, outbound: VersionRange) -> Seq<char> {
    "version "@ + decimal(version as nat) + " unsupported: server inbound "@ + range_text(inbound) + ", outbound "@
        + range_text(outbound)
}

pub open spec fn missing_capability_text(name: Seq<char>) -> Seq<char> {
    "capability "@ + name + " is not available on this server"@
}

pub open spec fn capability_version_text(name: Seq<char>, c: SpecCapability, version: u32) -> Seq<char> {
    "capability "@ + name + " requires version "@ + decimal(c.min_version as nat) + "-"@ + decimal(c.max_version as nat)
        + ", got "@ + decimal(version as nat)
}

/// A capability's range is the set of protocol versions it is available
/// for: its absence, or a version outside its range, is a refusal.
pub open spec fn spec_check_capability(config: SpecHandlerConfig, name: Seq<char>, version: u32) -> Option<SpecResponse> {
    match first_capability(config.capabilities, name) {
        None => Some(spec_error(ErrorCode::UnsupportedCapability, missing_capability_text(name))),
        Some(c) => if version < c.min_version || version > c.max_version {
            Some(spec_error(ErrorCode::UnsupportedVersion, capability_version_text(name, c, version)))
        } else {
            None
        },
    }
}

pub open spec fn spec_ping(config: SpecHandlerConfig, version: u32) -> SpecResponse {
    match spec_check_capability(config, "ping"@, version) {
        Some(refusal) => refusal,
        None => spec_pong(),
    }
}

/// Exec re-checks the version on every call: registration is only a
/// snapshot, and a redeploy can invalidate it between handshake and call.
pub open spec fn spec_exec(config: SpecHandlerConfig, exec: ExecRequest) -> SpecResponse {
    let version = exec.negotiated_version;
    if version == 0 {
        spec_error(ErrorCode::MissingVersion, missing_version_text())
    } else if !spec_range_contains(config.inbound, version) || !spec_range_contains(config.outbound, version) {
        spec_error(ErrorCode::UnsupportedVersion, unsupported_version_text(version, config.inbound, config.outbound))
    } else {
        match exec.call {
            Some(exec_request::Call::Ping(_)) => spec_ping(config, version),
            None => spec_error(ErrorCode::InvalidRequest, no_call_text()),
        }
    }
}

/// The answer to a decoded request.
pub open spec fn spec_handle(config: SpecHandlerConfig, req: crate::v1::SpecRequest) -> SpecResponse {
    match req.body {
        Some(request::SpecBody::Register(_)) => spec_register(config),
        Some(request::SpecBody::Exec(e)) => spec_exec(config, e),
        None => spec_error(ErrorCode::InvalidRequest, no_body_text()),
    }
}

/// The answer to request bytes: undecodable bytes are refused like any
/// other invalid request.
pub open spec fn spec_handle_bytes(config: SpecHandlerConfig, bytes: Seq<u8>) -> SpecResponse {
    match spec_decode_request(bytes) {
        Some(req) => spec_handle(config, req),
        None => spec_error(ErrorCode::InvalidRequest, undecodable_text()),
    }
}

/* What the server guarantees */

/// The error code that a response carries, if it is a refusal.
pub open spec fn refusal_code(r: SpecResponse) -> Option<i32> {
    match r.body {
        Some(response::SpecBody::Error(e)) => Some(e.code),
        _ => None,
    }
}

/// Every answer of a server whose limits name each key once decodes back to
/// itself: a client always gets a readable response, whatever it sent.
pub proof fn lemma_answer_decodes(config: SpecHandlerConfig, bytes: Seq<u8>)
    requires
        distinct_keys(config.limits),
        spec_encode_response(spec_handle_bytes(config, bytes)).len() < 0x1_0000_0000_0000_0000,
    ensures
        spec_decode_response(spec_encode_response(spec_handle_bytes(config, bytes))) == Some(
            spec_handle_bytes(config, bytes),
        ),
{
    assert(response_well_formed(spec_handle_bytes(config, bytes)));
    lemma_decode_encode_response(spec_handle_bytes(config, bytes));
}

/// One code path: a request that is encoded, answered as bytes, and whose
/// answer is decoded again, gets exactly the answer that the handler gives
/// the request itself.
pub proof fn lemma_bytes_path_matches_direct(config: SpecHandlerConfig, req: SpecRequest)
    requires
        distinct_keys(config.limits),
        spec_encode_request(req).len() < 0x1_0000_0000_0000_0000,
        spec_encode_response(spec_handle(config, req)).len() < 0x1_0000_0000_0000_0000,
    ensures
        spec_handle_bytes(config, spec_encode_request(req)) == spec_handle(config, req),
        spec_decode_response(spec_encode_response(spec_handle_bytes(config, spec_encode_request(req)))) == Some(
            spec_handle(config, req),
        ),
{
    lemma_decode_encode_request(req);
    lemma_answer_decodes(config, spec_encode_request(req));
}

/// Bad input is refused, never a crash: bytes that do not decode, and a
/// request without a body, are both answered with `INVALID_REQUEST`.
pub proof fn lemma_bad_input_is_invalid_request(config: SpecHandlerConfig, bytes: Seq<u8>)
    ensures
        spec_decode_request(bytes) is None ==> refusal_code(spec_handle_bytes(config, bytes)) == Some(
            error_code_number(ErrorCode::InvalidRequest),
        ),
        spec_decode_request(bytes) matches Some(req) && req.body is None ==> refusal_code(
            spec_handle_bytes(config, bytes),
        ) == Some(error_code_number(ErrorCode::InvalidRequest)),
{
}

/// Registration describes the server and decides nothing: every register
/// request gets the same answer, whatever it says about the client.
pub proof fn lemma_register_ignores_client(config: SpecHandlerConfig, a: SpecRequest, b: SpecRequest)
    requires
        a.body is Some && a.body->0 is Register,
        b.body is Some && b.body->0 is Register,
    ensures
        spec_handle(config, a) == spec_handle(config, b),
        spec_handle(config, a) == spec_register(config),
{
}

/// The server re-checks the version on every exec: it answers `pong` exactly
/// when the version is set, lies in both of its ranges and in the range of
/// the ping capability, and the call is a ping. A version outside its ranges
/// is refused with `UNSUPPORTED_VERSION`.
pub proof fn lemma_exec_checks_version(config: SpecHandlerConfig, exec: ExecRequest)
    ensures
        spec_exec(config, exec) == spec_pong() <==> {
            let v = exec.negotiated_version;
            &&& v != 0
            &&& spec_range_contains(config.inbound, v)
            &&& spec_range_contains(config.outbound, v)
            &&& exec.call is Some
            &&& first_capability(config.capabilities, "ping"@) matches Some(c) && c.min_version <= v <= c.max_version
        },
        exec.negotiated_version != 0 && !(spec_range_contains(config.inbound, exec.negotiated_version)
            && spec_range_contains(config.outbound, exec.negotiated_version)) ==> refusal_code(spec_exec(config, exec))
            == Some(error_code_number(ErrorCode::UnsupportedVersion)),
{
}

/// The search for a capability by name finds the first one of that name at
/// or after `i`, and the length when there is none.
proof fn lemma_capability_index(caps: Seq<SpecCapability>, name: Seq<char>, i: int, k: int)
    requires
        0 <= i <= caps.len(),
        i <= k <= caps.len(),
        k < caps.len() ==> caps[k].name == name,
        forall|j: int| i <= j < k ==> caps[j].name != name,
    ensures
        capability_index(caps, name, i) == k,
    decreases caps.len() - i,
{
    if i < k {
        lemma_capability_index(caps, name, i + 1, k);
    }
}

/// The capability gate. With no capability of the name, the refusal is
/// `UNSUPPORTED_CAPABILITY` (4 on the wire). When the first capability of
/// the name does not cover the version, below its range or above it, the
/// refusal is `UNSUPPORTED_VERSION` (3), the one that earns a client's
/// renegotiation. Inside its range there is no refusal.
pub proof fn lemma_capability_gate(config: SpecHandlerConfig, name: Seq<char>, version: u32, k: int)
    ensures
        (forall|j: int| 0 <= j < config.capabilities.len() ==> #[trigger] config.capabilities[j].name != name)
            ==> (spec_check_capability(config, name, version) matches Some(refusal) && refusal_code(refusal) == Some(
            4i32,
        )),
        ({
            let caps = config.capabilities;
            0 <= k < caps.len() && caps[k].name == name && (forall|j: int| 0 <= j < k ==> #[trigger] caps[j].name != name)
                ==> if version < caps[k].min_version || version > caps[k].max_version {
                (spec_check_capability(config, name, version) matches Some(refusal) && refusal_code(refusal) == Some(
                    3i32,
                ))
            } else {
                spec_check_capability(config, name, version) is None
            }
        }),
{
    let caps = config.capabilities;
    if forall|j: int| 0 <= j < caps.len() ==> #[trigger] caps[j].name != name {
        lemma_capability_index(caps, name, 0, caps.len() as int);
    }
    if 0 <= k < caps.len() && caps[k].name == name && (forall|j: int| 0 <= j < k ==> #[trigger] caps[j].name != name) {
        lemma_capability_index(caps, name, 0, k);
    }
}

/// The checks of every exec, in order: a missing negotiated version is
/// `MISSING_VERSION` (2 on the wire); one outside either server range is
/// `UNSUPPORTED_VERSION` (3); a missing call is `INVALID_REQUEST` (1); then
/// the ping capability decides, and a ping that passes is answered `pong`.
pub proof fn lemma_exec_gate(config: SpecHandlerConfig, exec: ExecRequest, k: int)
    ensures
        ({
            let v = exec.negotiated_version;
            let caps = config.capabilities;
            let in_server = spec_range_contains(config.inbound, v) && spec_range_contains(config.outbound, v);
            &&& v == 0 ==> refusal_code(spec_exec(config, exec)) == Some(2i32)
            &&& v != 0 && !in_server ==> refusal_code(spec_exec(config, exec)) == Some(3i32)
            &&& v != 0 && in_server && exec.call is None ==> refusal_code(spec_exec(config, exec)) == Some(1i32)
            &&& v != 0 && in_server && exec.call is Some && (forall|j: int|
                0 <= j < caps.len() ==> #[trigger] caps[j].name != "ping"@) ==> refusal_code(spec_exec(config, exec))
                == Some(4i32)
            &&& v != 0 && in_server && exec.call is Some && 0 <= k < caps.len() && caps[k].name == "ping"@ && (forall|
                j: int,
            |
                0 <= j < k ==> #[trigger] caps[j].name != "ping"@) ==> if v < caps[k].min_version || v > caps[k].max_version {
                refusal_code(spec_exec(config, exec)) == Some(3i32)
            } else {
                spec_exec(config, exec) == spec_pong()
            }
        }),
{
    lemma_capability_gate(config, "ping"@, exec.negotiated_version, k);
}

/// Serves requests for one configuration.
#[derive(Debug)]
pub struct Handler {
    config: HandlerConfig,
}

impl View for Handler {
    type V = SpecHandlerConfig;

    closed spec fn view(&self) -> SpecHandlerConfig {
        self.config@
    }
}

fn error(code: ErrorCode, message: String) -> (r: Response)
    ensures
        r@ == spec_error(code, message@),
{
    Response { body: Some(response::Body::Error(ErrorResponse { code: code.number(), message })) }
}

impl Handler {
    pub fn new(config: HandlerConfig) -> (r: Self)
        ensures
            r@ == config@,
    {
        Handler { config }
    }

    pub fn config(&self) -> (r: &HandlerConfig)
        ensures
            r@ == self@,
    {
        &self.config
    }

    /// Bytes in, bytes out: the whole server contract. Infallible: every
    /// failure, undecodable input included, becomes an error response.
    pub fn handle_bytes(&self, request: &[u8]) -> (r: Vec<u8>)
        ensures
            r@ == spec_encode_response(spec_handle_bytes(self@, request@)),
            spec_decode_response(r@) == Some(spec_handle_bytes(self@, request@)),
            distinct_keys(self@.limits),
    {
        let response = match Request::decode(request) {
            Ok(request) => self.handle(request),
            Err(_) => error(ErrorCode::InvalidRequest, "undecodable request: failed to decode Protobuf message".to_owned()),
        };
        let r = response.encode_to_vec();
        let n = r.len();
        proof {
            assert(r@.len() == n);
            use_type_invariant(&self.config.limits);
            self.config.limits.lemma_keys_distinct();
            lemma_answer_decodes(self@, request@);
        }
        r
    }

    /// The answer to a request.
    pub fn handle(&self, request: Request) -> (r: Response)
        ensures
            r@ == spec_handle(self@, request@),
    {
        match request.body {
            Some(request::Body::Register(_)) => self.register(),
            Some(request::Body::Exec(exec)) => self.exec(exec),
            None => error(ErrorCode::InvalidRequest, "request has no body; expected register or exec".to_owned()),
        }
    }

    fn register(&self) -> (r: Response)
        ensures
            r@ == spec_register(self@),
    {
        Response {
            body: Some(
                response::Body::Register(
                    RegisterResponse {
                        build: self.config.build.clone(),
                        capabilities: clone_capabilities(&self.config.capabilities),
                        inbound: Some(self.config.inbound),
                        outbound: Some(self.config.outbound),
                        limits: self.config.limits.clone(),
                    },
                ),
            ),
        }
    }

    fn exec(&self, exec: ExecRequest) -> (r: Response)
        ensures
            r@ == spec_exec(self@, exec),
    {
        let version = exec.negotiated_version;
        if version == 0 {
            return error(
                ErrorCode::MissingVersion,
                "exec requires negotiated_version; 0 means the client skipped negotiation".to_owned(),
            );
        }
        if !range_contains(&self.config.inbound, version) || !range_contains(&self.config.outbound, version) {
            let mut message = "version ".to_owned();
            push_decimal(&mut message, version as u64);
            message.append(" unsupported: server inbound ");
            push_range(&mut message, &self.config.inbound);
            message.append(", outbound ");
            push_range(&mut message, &self.config.outbound);
            assert(message@ =~= unsupported_version_text(version, self@.inbound, self@.outbound));
            return error(ErrorCode::UnsupportedVersion, message);
        }
        match exec.call {
            Some(exec_request::Call::Ping(_)) => self.ping(version),
            None => error(ErrorCode::InvalidRequest, "exec has no call; expected ping".to_owned()),
        }
    }

    fn ping(&self, version: u32) -> (r: Response)
        ensures
            r@ == spec_ping(self@, version),
    {
        if let Err(refusal) = self.check_capability("ping", version) {
            return refusal;
        }
        Response {
            body: Some(
                response::Body::Exec(
                    ExecResponse { output: Some(exec_response::Output::Ping(PingResponse { message: "pong".to_owned() })) },
                ),
            ),
        }
    }

    fn check_capability(&self, name: &str, version: u32) -> (r: Result<(), Response>)
        ensures
            match r {
                Ok(_) => spec_check_capability(self@, name@, version) is None,
                Err(refusal) => spec_check_capability(self@, name@, version) == Some(refusal@),
            },
    {
        match self.config.capability(name) {
            None => {
                let mut message = "capability ".to_owned();
                message.append(name);
                message.append(" is not available on this server");
                assert(message@ =~= missing_capability_text(name@));
                Err(error(ErrorCode::UnsupportedCapability, message))
            },
            Some(c) => {
                if version < c.min_version || version > c.max_version {
                    let mut message = "capability ".to_owned();
                    message.append(name);
                    message.append(" requires version ");
                    push_decimal(&mut message, c.min_version as u64);
                    message.append("-");
                    push_decimal(&mut message, c.max_version as u64);
                    message.append(", got ");
                    push_decimal(&mut message, version as u64);
                    assert(message@ =~= capability_version_text(name@, c@, version));
                    Err(error(ErrorCode::UnsupportedVersion, message))
                } else {
                    Ok(())
                }
            },
        }
    }
}

impl Clone for Handler {
    fn clone(&self) -> (r: Self)
        ensures
            r@ == self@,
    {
        Handler { config: self.config.clone() }
    }
}

impl Default for Handler {
    fn default() -> (r: Self)
        ensures
            r@ == spec_new_config(default_server_build()),
    {
        Handler::new(HandlerConfig::default())
    }
}

} // verus!
