//! A calling interface whose callers cannot tell whether a request was
//! answered in this process or by a remote execution environment.
//!
//! There is only one code path: a client always encodes a request, hands the
//! bytes to a transport, and decodes the bytes that come back. Local mode is
//! not a shortcut around that path but a transport that calls the server in
//! this process.

pub mod wire;
pub mod v1;
pub mod request_codec;
pub mod response_codec;
pub mod wire_form;
pub mod text;
pub mod ranges;
pub mod envelope;
pub mod handler;
pub mod error;
pub mod negotiate;
pub mod transport;
pub mod mode;
pub mod something;
pub mod remote;

pub use envelope::{Envelope, EnvelopeError};
pub use error::{Error, ErrorKind, TransportError};
pub use handler::{capability, Handler, HandlerConfig};
pub use mode::{EnvValue, Mode};
pub use negotiate::{negotiate, ClientRequirements, Negotiated};
pub use ranges::{range_contains, range_display, version_range};
pub use something::{DoSomething, Something};
pub use transport::{LoopbackTransport, Transport};
