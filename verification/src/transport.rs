//! Bytes in, bytes out. Everything above a transport is protocol; everything
//! below it is plumbing.

use vstd::prelude::*;
use vstd::string::*;
use crate::error::{Error, SpecError, TransportError};
use crate::handler::{default_server_build, spec_handle_bytes, spec_new_config, Handler, HandlerConfig, SpecHandlerConfig};
use crate::request_codec::spec_encode_request;
use crate::response_codec::{spec_decode_response, spec_encode_response};
use crate::v1::{distinct_keys, Request, Response, SpecResponse};

verus! {

/// Carries encoded requests somewhere and brings encoded responses back.
///
/// Deliberately synchronous: the facade is synchronous, so an asynchronous
/// transport would only move the blocking somewhere less obvious.
pub trait Transport: Send + Sync {
    /// `request` and the returned bytes are both encoded messages of the
    /// protocol; any framing around them is the transport's own business.
    fn call(&self, request: &[u8]) -> Result<Vec<u8>, TransportError>;

    /// For diagnostics: where calls go.
    fn describe(&self) -> String;
}

/// What a transport brought back: the response bytes, or the message of the
/// failure.
pub open spec fn reply_view(r: Result<Vec<u8>, TransportError>) -> Result<Seq<u8>, Seq<char>> {
    match r {
        Ok(bytes) => Ok(bytes@),
        Err(e) => Err(e@),
    }
}

/// One call through a transport: the bytes sent and what came back.
pub struct Exchange {
    pub request: Seq<u8>,
    pub reply: Result<Seq<u8>, Seq<char>>,
}

/// What a reply amounts to: a decoded response, a transport failure, or
/// bytes that are not a response.
pub open spec fn reply_outcome(reply: Result<Seq<u8>, Seq<char>>) -> Result<SpecResponse, SpecError> {
    match reply {
        Err(message) => Err(SpecError::Transport(message)),
        Ok(bytes) => match spec_decode_response(bytes) {
            Some(response) => Ok(response),
            None => Err(SpecError::Decode),
        },
    }
}

pub open spec fn response_result_view(r: Result<Response, Error>) -> Result<SpecResponse, SpecError> {
    match r {
        Ok(response) => Ok(response@),
        Err(e) => Err(e@),
    }
}

/// What an in-process server with `config` answers to `request`.
pub open spec fn loopback_reply(config: SpecHandlerConfig, request: Seq<u8>) -> Result<Seq<u8>, Seq<char>> {
    Ok(spec_encode_response(spec_handle_bytes(config, request)))
}

/// Runs the handler in this process, through the full encode and decode
/// path: local mode exists to catch protocol mistakes before they reach a
/// remote server, so it has to be honest about versioning, framing and
/// errors.
#[derive(Debug)]
pub struct LoopbackTransport {
    handler: Handler,
}

impl View for LoopbackTransport {
    type V = SpecHandlerConfig;

    closed spec fn view(&self) -> SpecHandlerConfig {
        self.handler@
    }
}

impl LoopbackTransport {
    pub fn new(handler: Handler) -> (r: Self)
        ensures
            r@ == handler@,
    {
        LoopbackTransport { handler }
    }

    pub fn with_config(config: HandlerConfig) -> (r: Self)
        ensures
            r@ == config@,
    {
        LoopbackTransport::new(Handler::new(config))
    }

    pub fn handler(&self) -> (r: &Handler)
        ensures
            r@ == self@,
    {
        &self.handler
    }
}

impl Default for LoopbackTransport {
    fn default() -> (r: Self)
        ensures
            r@ == spec_new_config(default_server_build()),
    {
        LoopbackTransport::new(Handler::default())
    }
}

impl Transport for LoopbackTransport {
    /// The handler is infallible, so loopback never fails as a transport:
    /// in-process calls do not time out.
    fn call(&self, request: &[u8]) -> (r: Result<Vec<u8>, TransportError>)
        ensures
            reply_view(r) == loopback_reply(self@, request@),
            distinct_keys(self@.limits),
    {
        Ok(self.handler.handle_bytes(request))
    }

    /// `loopback(build)`.
    fn describe(&self) -> (r: String)
        ensures
            r@ == "loopback("@ + self@.build + ")"@,
    {
        let mut r = "loopback(".to_owned();
        r.append(self.handler.config().build.as_str());
        r.append(")");
        r
    }
}

/// Turns what a transport brought back into a response.
pub fn read_reply(reply: Result<Vec<u8>, TransportError>) -> (r: Result<Response, Error>)
    ensures
        response_result_view(r) == reply_outcome(reply_view(reply)),
{
    match reply {
        Err(e) => Err(Error::Transport(e)),
        Ok(bytes) => match Response::decode(bytes.as_slice()) {
            Ok(response) => Ok(response),
            Err(e) => Err(Error::Decode(e)),
        },
    }
}

/// Whether an exchange is what `server`, when there is one, answers: the
/// in-process server of a local client answers every request itself, and
/// its limits name each key once.
#[verifier::opaque]
pub open spec fn served_by(server: Option<SpecHandlerConfig>, e: Exchange) -> bool {
    match server {
        Some(config) => e.reply == loopback_reply(config, e.request) && distinct_keys(config.limits),
        None => true,
    }
}

/// The transport a client calls through: the in-process server, or any
/// transport handed in.
pub enum Carrier {
    Local(LoopbackTransport),
    Remote(Box<dyn Transport>),
}

/// A transport together with the record of every call made through it. The
/// record is only ever extended by `Link::call`, which makes the call it
/// records, so it counts the calls that were actually made.
pub struct Link {
    carrier: Carrier,
    calls: Ghost<Seq<Exchange>>,
}

pub struct SpecLink {
    /// Every call made, in order: the bytes sent and what came back.
    pub calls: Seq<Exchange>,
    /// The configuration of the in-process server, for a local link.
    pub server: Option<SpecHandlerConfig>,
}

impl View for Link {
    type V = SpecLink;

    closed spec fn view(&self) -> SpecLink {
        SpecLink {
            calls: self.calls@,
            server: match self.carrier {
                Carrier::Local(t) => Some(t@),
                Carrier::Remote(_) => None,
            },
        }
    }
}

impl Link {
    /// A link to an in-process server; no calls made yet.
    pub fn local(transport: LoopbackTransport) -> (r: Self)
        ensures
            r@.calls == Seq::<Exchange>::empty(),
            r@.server == Some(transport@),
    {
        Link { carrier: Carrier::Local(transport), calls: Ghost(Seq::empty()) }
    }

    /// A link through a transport handed in; no calls made yet.
    pub fn remote(transport: Box<dyn Transport>) -> (r: Self)
        ensures
            r@.calls == Seq::<Exchange>::empty(),
            r@.server is None,
    {
        Link { carrier: Carrier::Remote(transport), calls: Ghost(Seq::empty()) }
    }

    /// Makes one call and records it.
    pub fn call(&mut self, request: &[u8]) -> (r: Result<Vec<u8>, TransportError>)
        ensures
            final(self)@.server == old(self)@.server,
            final(self)@.calls == old(self)@.calls.push(Exchange { request: request@, reply: reply_view(r) }),
            served_by(old(self)@.server, Exchange { request: request@, reply: reply_view(r) }),
            request@.len() <= usize::MAX,
            reply_view(r) matches Ok(bytes) ==> bytes.len() <= usize::MAX,
    {
        let reply = match &self.carrier {
            Carrier::Local(t) => t.call(request),
            Carrier::Remote(t) => t.call(request),
        };
        let n = request.len();
        assert(request@.len() == n);
        if let Ok(bytes) = &reply {
            let m = bytes.len();
            assert(bytes@.len() == m);
        }
        self.calls = Ghost(self.calls@.push(Exchange { request: request@, reply: reply_view(reply) }));
        proof {
            reveal(served_by);
        }
        reply
    }

    /// Where calls go, as the transport describes itself: `loopback(build)`
    /// for the in-process server; what a transport handed in says of itself
    /// is its own affair.
    pub fn describe(&self) -> (r: String)
        ensures
            self@.server matches Some(config) ==> r@ == "loopback("@ + config.build + ")"@,
    {
        match &self.carrier {
            Carrier::Local(t) => t.describe(),
            Carrier::Remote(t) => t.describe(),
        }
    }
}

/// `after` is `before` with exactly one more call, which sent `request`;
/// what was sent and what came back were both held in memory.
pub open spec fn one_more_call(before: SpecLink, after: SpecLink, request: Seq<u8>) -> bool {
    &&& after.server == before.server
    &&& after.calls.len() == before.calls.len() + 1
    &&& after.calls.drop_last() == before.calls
    &&& after.calls.last().request == request
    &&& served_by(before.server, after.calls.last())
    &&& request.len() <= usize::MAX
    &&& after.calls.last().reply matches Ok(bytes) ==> bytes.len() <= usize::MAX
}

/// Sends a request through a link and decodes the answer: exactly one call,
/// with the request's bytes.
pub fn round_trip(link: &mut Link, request: Request) -> (r: Result<Response, Error>)
    ensures
        one_more_call(old(link)@, final(link)@, spec_encode_request(request@)),
        response_result_view(r) == reply_outcome(final(link)@.calls.last().reply),
{
    let bytes = request.encode_to_vec();
    let reply = link.call(bytes.as_slice());
    proof {
        assert(final(link)@.calls.drop_last() =~= old(link)@.calls);
    }
    read_reply(reply)
}

} // verus!
