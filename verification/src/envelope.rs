//! A remote function's invoke interface carries JSON, not bytes, so protocol
//! bytes travel as standard base64 inside a one-field JSON object.
//!
//! The envelope is the one thing that can never be renegotiated: both sides
//! must agree on it before any version handshake is possible. So it stays
//! tiny and frozen, and all evolution happens inside `payload`.

use vstd::prelude::*;
use vstd::string::*;
use base64::engine::general_purpose::STANDARD;
use base64::Engine;

verus! {

#[verifier::external_type_specification]
#[verifier::external_body]
pub struct ExBase64DecodeError(base64::DecodeError);

/// Why an envelope could not be read.
#[derive(Debug)]
pub enum EnvelopeError {
    /// The envelope is not the JSON object it should be; the text says why.
    Json(String),
    /// The payload is not standard base64.
    Base64(base64::DecodeError),
}

/// The JSON object `{"payload": "<base64>"}`.
#[derive(Debug, Clone, PartialEq, Eq)]
pub struct Envelope {
    pub payload: String,
}

/// A character of the standard base64 alphabet, or the padding `=`.
pub open spec fn is_base64_char(c: char) -> bool {
    ||| 'A' <= c <= 'Z'
    ||| 'a' <= c <= 'z'
    ||| '0' <= c <= '9'
    ||| c == '+'
    ||| c == '/'
    ||| c == '='
}

/// The standard base64 text (with padding) of `bytes`.
pub uninterp spec fn base64_text(bytes: Seq<u8>) -> Seq<char>;

/// `STANDARD.encode` of the base64 crate: the padded standard encoding. It
/// panics only when the length of the encoding would overflow `usize`.
#[verifier::external_body]
fn base64_encode(bytes: &[u8]) -> (r: String)
    requires
        bytes@.len() / 3 * 4 + 4 <= usize::MAX,
    ensures
        r@ == base64_text(bytes@),
        forall|i: int| 0 <= i < r@.len() ==> is_base64_char(#[trigger] r@[i]),
{
    STANDARD.encode(bytes)
}

/// `STANDARD.decode` of the base64 crate. Its configuration requires
/// canonical padding and rejects non-zero trailing bits, so it accepts
/// exactly the texts that `STANDARD.encode` produces, and gives back the
/// bytes they encode; any byte outside the alphabet and the padding is an
/// invalid byte.
#[verifier::external_body]
fn base64_decode(text: &str) -> (r: Result<Vec<u8>, base64::DecodeError>)
    ensures
        r matches Ok(v) ==> base64_text(v@) == text@,
        r matches Ok(v) ==> forall|bytes: Seq<u8>| #[trigger] base64_text(bytes) == text@ ==> v@ == bytes,
        r is Err ==> forall|bytes: Seq<u8>| #[trigger] base64_text(bytes) != text@,
        r is Ok ==> forall|i: int| 0 <= i < text@.len() ==> is_base64_char(#[trigger] text@[i]),
{
    STANDARD.decode(text.as_bytes())
}

pub open spec fn bytes_result_view(r: Result<Vec<u8>, EnvelopeError>) -> Result<Seq<u8>, ()> {
    match r {
        Ok(bytes) => Ok(bytes@),
        Err(_) => Err(()),
    }
}

impl Envelope {
    /// Wraps protocol bytes for transport.
    pub fn from_bytes(bytes: &[u8]) -> (r: Self)
        requires
            bytes@.len() / 3 * 4 + 4 <= usize::MAX,
        ensures
            r.payload@ == base64_text(bytes@),
            forall|i: int| 0 <= i < r.payload@.len() ==> is_base64_char(#[trigger] r.payload@[i]),
    {
        Envelope { payload: base64_encode(bytes) }
    }

    /// Unwraps the protocol bytes: the bytes whose encoding the payload is,
    /// and a base64 error when it is the encoding of none.
    pub fn to_bytes(&self) -> (r: Result<Vec<u8>, EnvelopeError>)
        ensures
            match r {
                Ok(bytes) => base64_text(bytes@) == self.payload@,
                Err(e) => e is Base64 && forall|bytes: Seq<u8>| #[trigger] base64_text(bytes) != self.payload@,
            },
            forall|bytes: Seq<u8>| #[trigger] base64_text(bytes) == self.payload@ ==> bytes_result_view(r) == Ok::<
                Seq<u8>,
                (),
            >(bytes),
            (exists|i: int| 0 <= i < self.payload@.len() && !is_base64_char(#[trigger] self.payload@[i])) ==> r is Err,
    {
        match base64_decode(self.payload.as_str()) {
            Ok(bytes) => Ok(bytes),
            Err(e) => Err(EnvelopeError::Base64(e)),
        }
    }
}

/// The base64 crate's `Display` text of a decode error; it names the
/// offending position, and nothing is promised of its wording.
#[verifier::external_body]
fn base64_error_text(e: &base64::DecodeError) -> String {
    e.to_string()
}

impl EnvelopeError {
    /// How this error reads to people.
    pub fn to_string(&self) -> (r: String)
        ensures
            match self {
                EnvelopeError::Json(detail) => r@ == "envelope is not valid JSON: "@ + detail@,
                EnvelopeError::Base64(_) => "envelope payload is not valid base64: "@.is_prefix_of(r@),
            },
    {
        match self {
            EnvelopeError::Json(detail) => {
                let mut r = "envelope is not valid JSON: ".to_owned();
                r.append(detail.as_str());
                r
            },
            EnvelopeError::Base64(e) => {
                let mut r = "envelope payload is not valid base64: ".to_owned();
                let ghost prefix = r@;
                let text = base64_error_text(e);
                r.append(text.as_str());
                assert(r@.subrange(0, prefix.len() as int) =~= prefix);
                r
            },
        }
    }
}

} // verus!
