//! How a call can fail, from the client's side.

use vstd::prelude::*;
use vstd::string::*;
use crate::request_codec::MalformedMessage;
use crate::v1::ErrorCode;

verus! {

/// A transport failed to deliver bytes and bring bytes back.
///
/// This is distinct from a server error response: a remote function that
/// returns an error response completed successfully as far as the transport
/// is concerned. Crashes, timeouts and throttling land here; protocol-level
/// refusals land in [`Error::Server`].
#[derive(Debug, PartialEq, Eq)]
pub struct TransportError {
    pub message: String,
}

impl View for TransportError {
    type V = Seq<char>;

    open spec fn view(&self) -> Seq<char> {
        self.message@
    }
}

impl TransportError {
    pub fn new(message: &str) -> (r: Self)
        ensures
            r@ == message@,
    {
        TransportError { message: message.to_owned() }
    }

    /// How this failure reads to people.
    pub fn to_string(&self) -> (r: String)
        ensures
            r@ == "transport failure: "@ + self@,
    {
        let mut r = "transport failure: ".to_owned();
        r.append(self.message.as_str());
        r
    }
}

impl Clone for TransportError {
    fn clone(&self) -> (r: Self)
        ensures
            r@ == self@,
    {
        TransportError { message: self.message.clone() }
    }
}

#[derive(Debug, PartialEq, Eq)]
pub enum Error {
    /// The call never completed. Retrying may help; the client does not.
    Transport(TransportError),
    /// Negotiation found no version both sides can speak, or a required
    /// capability is absent. The message names the actual ranges.
    Incompatible(String),
    /// The server understood the request and refused it.
    Server { code: ErrorCode, message: String },
    /// A well-formed response that makes no sense here, e.g. a register
    /// response to an exec call, or an empty body.
    Protocol(String),
    /// The bytes that came back are not a `Response`.
    Decode(MalformedMessage),
    /// Bad configuration, e.g. an unknown mode.
    Config(String),
}

pub enum SpecError {
    Transport(Seq<char>),
    Incompatible(Seq<char>),
    Server { code: ErrorCode, message: Seq<char> },
    Protocol(Seq<char>),
    Decode,
    Config(Seq<char>),
}

impl View for Error {
    type V = SpecError;

    open spec fn view(&self) -> SpecError {
        match self {
            Error::Transport(t) => SpecError::Transport(t@),
            Error::Incompatible(m) => SpecError::Incompatible(m@),
            Error::Server { code, message } => SpecError::Server { code: *code, message: message@ },
            Error::Protocol(m) => SpecError::Protocol(m@),
            Error::Decode(_) => SpecError::Decode,
            Error::Config(m) => SpecError::Config(m@),
        }
    }
}

/// The name of an error code, as its `Debug` form writes it.
pub open spec fn error_code_name(code: ErrorCode) -> Seq<char> {
    match code {
        ErrorCode::Unspecified => "Unspecified"@,
        ErrorCode::InvalidRequest => "InvalidRequest"@,
        ErrorCode::MissingVersion => "MissingVersion"@,
        ErrorCode::UnsupportedVersion => "UnsupportedVersion"@,
        ErrorCode::UnsupportedCapability => "UnsupportedCapability"@,
        ErrorCode::Internal => "Internal"@,
    }
}

/// How an error reads to people.
pub open spec fn error_text(e: SpecError) -> Seq<char> {
    match e {
        SpecError::Transport(m) => "transport failure: "@ + m,
        SpecError::Incompatible(m) => "incompatible: "@ + m,
        SpecError::Server { code, message } => "server error "@ + error_code_name(code) + ": "@ + message,
        SpecError::Protocol(m) => "protocol violation: "@ + m,
        SpecError::Decode => "could not decode response: failed to decode Protobuf message"@,
        SpecError::Config(m) => "configuration error: "@ + m,
    }
}

fn error_code_name_str(code: ErrorCode) -> (r: &'static str)
    ensures
        r@ == error_code_name(code),
{
    match code {
        ErrorCode::Unspecified => "Unspecified",
        ErrorCode::InvalidRequest => "InvalidRequest",
        ErrorCode::MissingVersion => "MissingVersion",
        ErrorCode::UnsupportedVersion => "UnsupportedVersion",
        ErrorCode::UnsupportedCapability => "UnsupportedCapability",
        ErrorCode::Internal => "Internal",
    }
}

/// The families errors fall into for callers in other languages: protocol,
/// decode and configuration errors share one, since callers cannot act on
/// the distinctions between them.
#[derive(Debug, Clone, Copy, PartialEq, Eq, Structural)]
pub enum ErrorKind {
    Transport,
    Incompatible,
    Server,
    Setup,
}

pub open spec fn spec_error_kind(e: SpecError) -> ErrorKind {
    match e {
        SpecError::Transport(_) => ErrorKind::Transport,
        SpecError::Incompatible(_) => ErrorKind::Incompatible,
        SpecError::Server { .. } => ErrorKind::Server,
        SpecError::Protocol(_) | SpecError::Decode | SpecError::Config(_) => ErrorKind::Setup,
    }
}

impl Error {
    /// The family this error belongs to.
    pub fn kind(&self) -> (r: ErrorKind)
        ensures
            r == spec_error_kind(self@),
    {
        match self {
            Error::Transport(_) => ErrorKind::Transport,
            Error::Incompatible(_) => ErrorKind::Incompatible,
            Error::Server { .. } => ErrorKind::Server,
            Error::Protocol(_) | Error::Decode(_) | Error::Config(_) => ErrorKind::Setup,
        }
    }

    /// True when the server rejected the version that was sent: the one case
    /// the client handles itself (re-register once, then retry once).
    pub fn is_unsupported_version(&self) -> (r: bool)
        ensures
            r == (self@ matches SpecError::Server { code, .. } && code == ErrorCode::UnsupportedVersion),
    {
        match self {
            Error::Server { code: ErrorCode::UnsupportedVersion, .. } => true,
            _ => false,
        }
    }

    /// How this error reads to people.
    pub fn to_string(&self) -> (r: String)
        ensures
            r@ == error_text(self@),
    {
        let mut out;
        match self {
            Error::Transport(t) => {
                out = "transport failure: ".to_owned();
                out.append(t.message.as_str());
            },
            Error::Incompatible(m) => {
                out = "incompatible: ".to_owned();
                out.append(m.as_str());
            },
            Error::Server { code, message } => {
                out = "server error ".to_owned();
                out.append(error_code_name_str(*code));
                out.append(": ");
                out.append(message.as_str());
            },
            Error::Protocol(m) => {
                out = "protocol violation: ".to_owned();
                out.append(m.as_str());
            },
            Error::Decode(_) => {
                out = "could not decode response: failed to decode Protobuf message".to_owned();
            },
            Error::Config(m) => {
                out = "configuration error: ".to_owned();
                out.append(m.as_str());
            },
        }
        assert(out@ =~= error_text(self@));
        out
    }
}

impl From<TransportError> for Error {
    fn from(e: TransportError) -> (r: Error) {
        Error::Transport(e)
    }
}

impl vstd::std_specs::convert::FromSpecImpl<TransportError> for Error {
    open spec fn obeys_from_spec() -> bool {
        true
    }

    open spec fn from_spec(e: TransportError) -> Error {
        Error::Transport(e)
    }
}

} // verus!
