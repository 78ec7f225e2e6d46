//! The remote function's side of things that involves no network: the
//! settings a remote transport is built from, what it makes of an
//! invocation's outcome, and what the remote function does with an envelope.

use vstd::prelude::*;
use vstd::string::*;
use vstd::utf8::*;
use crate::envelope::{base64_text, Envelope, EnvelopeError};
use crate::error::{Error, SpecError, TransportError};
use crate::handler::{spec_handle_bytes, Handler};
use crate::mode::{EnvValue, SpecEnvValue};
use crate::response_codec::spec_encode_response;
use crate::text::{decimal, digit_char, push_decimal};

verus! {

/* Settings */

/// Where a remote transport sends its calls, and how long it waits.
#[derive(Debug, Clone, PartialEq, Eq)]
pub struct RemoteSettings {
    /// The remote function's name.
    pub function: String,
    /// A published version or alias. Never the moving latest version: the
    /// register and exec calls must reach the same code.
    pub qualifier: String,
    /// Client-side timeout of one invocation, in seconds.
    pub timeout_secs: u64,
}

pub struct SpecRemoteSettings {
    pub function: Seq<char>,
    pub qualifier: Seq<char>,
    pub timeout_secs: u64,
}

impl View for RemoteSettings {
    type V = SpecRemoteSettings;

    open spec fn view(&self) -> SpecRemoteSettings {
        SpecRemoteSettings { function: self.function@, qualifier: self.qualifier@, timeout_secs: self.timeout_secs }
    }
}

/// Why text is not a `u64`, as `u64::from_str` classifies it.
#[derive(Debug, Clone, Copy, PartialEq, Eq, Structural)]
pub enum IntError {
    Empty,
    InvalidDigit,
    PosOverflow,
}

/// How `u64::from_str` reports each failure.
pub open spec fn int_error_text(e: IntError) -> Seq<char> {
    match e {
        IntError::Empty => "cannot parse integer from empty string"@,
        IntError::InvalidDigit => "invalid digit found in string"@,
        IntError::PosOverflow => "number too large to fit in target type"@,
    }
}

pub open spec fn is_digit(c: char) -> bool {
    '0' <= c <= '9'
}

pub open spec fn digit_value(c: char) -> int {
    (c as int) - ('0' as int)
}

/// The decimal digits of `s` after a value of `acc`, left to right: the
/// first character that is not a digit is an invalid digit, and the first
/// digit that takes the value past `u64::MAX` an overflow.
pub open spec fn parse_digits(s: Seq<char>, acc: int) -> Result<u64, IntError>
    decreases s.len(),
{
    if s.len() == 0 {
        Ok(acc as u64)
    } else if !is_digit(s[0]) {
        Err(IntError::InvalidDigit)
    } else if acc * 10 + digit_value(s[0]) > u64::MAX {
        Err(IntError::PosOverflow)
    } else {
        parse_digits(s.drop_first(), acc * 10 + digit_value(s[0]))
    }
}

/// `u64::from_str`: an optional leading `+`, then decimal digits, at least
/// one.
pub open spec fn spec_parse_u64(s: Seq<char>) -> Result<u64, IntError> {
    if s.len() == 0 {
        Err(IntError::Empty)
    } else if s[0] == '+' {
        if s.len() == 1 {
            Err(IntError::InvalidDigit)
        } else {
            parse_digits(s.drop_first(), 0)
        }
    } else {
        parse_digits(s, 0)
    }
}

/// Parses a `u64` the way `u64::from_str` does.
pub fn parse_u64(text: &str) -> (r: Result<u64, IntError>)
    ensures
        r == spec_parse_u64(text@),
{
    let mut i: usize = 0;
    let n = text.unicode_len();
    if n == 0 {
        return Err(IntError::Empty);
    }
    let ghost s = text@;
    if text.get_char(0) == '+' {
        if n == 1 {
            return Err(IntError::InvalidDigit);
        }
        i = 1;
    }
    let ghost start = i as int;
    proof {
        if i == 1 {
            assert(s.skip(1) =~= s.drop_first());
        } else {
            assert(s.skip(0) =~= s);
        }
    }
    let mut acc: u64 = 0;
    while i < n
        invariant
            start == 0 || start == 1,
            start <= i <= n,
            n == s.len(),
            s == text@,
            spec_parse_u64(s) == parse_digits(s.skip(i as int), acc as int),
        decreases n - i,
    {
        let c = text.get_char(i);
        proof {
            assert(s.skip(i as int)[0] == c);
            assert(s.skip(i as int).drop_first() =~= s.skip(i + 1));
        }
        if !('0' <= c && c <= '9') {
            return Err(IntError::InvalidDigit);
        }
        let d: u64 = (c as u32 - '0' as u32) as u64;
        if acc > (u64::MAX - d) / 10 {
            proof {
                assert(acc * 10 + d > u64::MAX) by (nonlinear_arith)
                    requires
                        acc > (u64::MAX - d) / 10,
                        d <= 9,
                ;
            }
            return Err(IntError::PosOverflow);
        }
        proof {
            assert(acc * 10 + d <= u64::MAX) by (nonlinear_arith)
                requires
                    acc <= (u64::MAX - d) / 10,
                    d <= 9,
            ;
        }
        acc = acc * 10 + d;
        i = i + 1;
    }
    assert(s.skip(i as int) =~= Seq::<char>::empty());
    Ok(acc)
}

pub open spec fn function_required_text() -> Seq<char> {
    "SOMETHING_LAMBDA_FUNCTION is required in remote mode"@
}

pub open spec fn qualifier_required_text() -> Seq<char> {
    "SOMETHING_LAMBDA_QUALIFIER is required: set it to a published version or alias so the register and exec calls reach the same code"@
}

/// The timeout when none is set.
pub open spec fn default_timeout_secs() -> u64 {
    30
}

/// The settings of a remote transport, from its three variables: the
/// function and the qualifier must be set (a qualifier is never defaulted,
/// since the moving latest version is exactly the skew the protocol exists
/// to expose); the timeout, in whole seconds, is thirty when it is not set
/// or cannot be read.
pub open spec fn spec_remote_settings(function: SpecEnvValue, qualifier: SpecEnvValue, timeout: SpecEnvValue) -> Result<
    SpecRemoteSettings,
    SpecError,
> {
    match function {
        SpecEnvValue::Present(f) => match qualifier {
            SpecEnvValue::Present(q) => match timeout {
                SpecEnvValue::Present(t) => match spec_parse_u64(t) {
                    Ok(secs) => Ok(SpecRemoteSettings { function: f, qualifier: q, timeout_secs: secs }),
                    Err(e) => Err(
                        SpecError::Config("SOMETHING_LAMBDA_TIMEOUT_SECS must be whole seconds: "@ + int_error_text(e)),
                    ),
                },
                _ => Ok(SpecRemoteSettings { function: f, qualifier: q, timeout_secs: default_timeout_secs() }),
            },
            _ => Err(SpecError::Config(qualifier_required_text())),
        },
        _ => Err(SpecError::Config(function_required_text())),
    }
}

/* What the settings and the parser guarantee */

/// On success the function and the qualifier are the values of their own
/// variables, whatever the timeout variable holds, and the timeout is
/// thirty seconds unless its variable is set, in which case it is the
/// number written there. Success needs both names to be set, and a set
/// timeout to be whole seconds.
pub proof fn lemma_remote_settings_fields(function: SpecEnvValue, qualifier: SpecEnvValue, timeout: SpecEnvValue)
    ensures
        spec_remote_settings(function, qualifier, timeout) is Ok <==> {
            &&& function is Present
            &&& qualifier is Present
            &&& timeout matches SpecEnvValue::Present(t) ==> spec_parse_u64(t) is Ok
        },
        spec_remote_settings(function, qualifier, timeout) matches Ok(s) ==> {
            &&& function == SpecEnvValue::Present(s.function)
            &&& qualifier == SpecEnvValue::Present(s.qualifier)
            &&& match timeout {
                SpecEnvValue::Present(t) => spec_parse_u64(t) == Ok::<u64, IntError>(s.timeout_secs),
                _ => s.timeout_secs == 30,
            }
        },
        forall|other: SpecEnvValue|
            #![trigger spec_remote_settings(function, qualifier, other)]
            spec_remote_settings(function, qualifier, timeout) is Ok && spec_remote_settings(function, qualifier, other) is Ok
                ==> spec_remote_settings(function, qualifier, timeout)->Ok_0.function == spec_remote_settings(
                function,
                qualifier,
                other,
            )->Ok_0.function && spec_remote_settings(function, qualifier, timeout)->Ok_0.qualifier
                == spec_remote_settings(function, qualifier, other)->Ok_0.qualifier,
{
}

/// Appending a digit to digits that read as `x` reads as `10 x` plus the
/// digit, or overflows when that passes `u64::MAX`.
proof fn lemma_parse_digits_push(s: Seq<char>, acc: int, x: u64, c: char)
    requires
        parse_digits(s, acc) == Ok::<u64, IntError>(x),
        is_digit(c),
        0 <= acc <= u64::MAX,
    ensures
        parse_digits(s.push(c), acc) == if x * 10 + digit_value(c) > u64::MAX {
            Err::<u64, IntError>(IntError::PosOverflow)
        } else {
            Ok::<u64, IntError>((x * 10 + digit_value(c)) as u64)
        },
    decreases s.len(),
{
    if s.len() == 0 {
        assert(x == acc);
        assert(s.push(c) =~= seq![c]);
        assert(seq![c].drop_first() =~= Seq::<char>::empty());
        if acc * 10 + digit_value(c) <= u64::MAX {
            assert(parse_digits(seq![c].drop_first(), acc * 10 + digit_value(c)) == Ok::<u64, IntError>(
                (acc * 10 + digit_value(c)) as u64,
            ));
        }
    } else {
        let t = s.push(c);
        assert(t[0] == s[0]);
        assert(t.drop_first() =~= s.drop_first().push(c));
        assert(is_digit(s[0]));
        assert(acc * 10 + digit_value(s[0]) <= u64::MAX);
        assert(parse_digits(s, acc) == parse_digits(s.drop_first(), acc * 10 + digit_value(s[0])));
        assert(parse_digits(t, acc) == parse_digits(t.drop_first(), acc * 10 + digit_value(s[0])));
        lemma_parse_digits_push(s.drop_first(), acc * 10 + digit_value(s[0]), x, c);
    }
}

/// Reading the decimal form of any `u64` gives it back: the parser agrees
/// with how numbers are written in messages.
pub proof fn lemma_parse_decimal(n: u64)
    ensures
        spec_parse_u64(decimal(n as nat)) == Ok::<u64, IntError>(n),
    decreases n,
{
    lemma_parse_decimal_digits(n);
    let d = decimal(n as nat);
    assert(d[0] != '+') by {
        assert(is_digit(d[0]));
    }
}

proof fn lemma_parse_decimal_digits(n: u64)
    ensures
        parse_digits(decimal(n as nat), 0) == Ok::<u64, IntError>(n),
        decimal(n as nat).len() > 0,
        forall|i: int| 0 <= i < decimal(n as nat).len() ==> is_digit(#[trigger] decimal(n as nat)[i]),
    decreases n,
{
    let c = digit_char((n % 10) as nat);
    assert(is_digit(c) && digit_value(c) == n % 10);
    if n < 10 {
        assert(decimal(n as nat) == seq![c]);
        assert(seq![c].drop_first() =~= Seq::<char>::empty());
        assert(parse_digits(seq![c], 0) == parse_digits(seq![c].drop_first(), digit_value(c)));
        assert forall|i: int| 0 <= i < decimal(n as nat).len() implies is_digit(#[trigger] decimal(n as nat)[i]) by {
            assert(decimal(n as nat)[i] == c);
        }
    } else {
        let m = (n / 10) as u64;
        lemma_parse_decimal_digits(m);
        assert(decimal(n as nat) == decimal(m as nat) + seq![c]);
        assert(decimal(m as nat) + seq![c] =~= decimal(m as nat).push(c));
        lemma_parse_digits_push(decimal(m as nat), 0, m, c);
        assert(m * 10 + digit_value(c) == n);
        assert forall|i: int| 0 <= i < decimal(n as nat).len() implies is_digit(#[trigger] decimal(n as nat)[i]) by {
            if i < decimal(m as nat).len() {
                assert(decimal(n as nat)[i] == decimal(m as nat)[i]);
            } else {
                assert(decimal(n as nat)[i] == c);
            }
        }
    }
}

pub open spec fn settings_result_view(r: Result<RemoteSettings, Error>) -> Result<SpecRemoteSettings, SpecError> {
    match r {
        Ok(s) => Ok(s@),
        Err(e) => Err(e@),
    }
}

fn int_error_str(e: IntError) -> (r: &'static str)
    ensures
        r@ == int_error_text(e),
{
    match e {
        IntError::Empty => "cannot parse integer from empty string",
        IntError::InvalidDigit => "invalid digit found in string",
        IntError::PosOverflow => "number too large to fit in target type",
    }
}

/// Reads the settings of a remote transport from the values of
/// `SOMETHING_LAMBDA_FUNCTION`, `SOMETHING_LAMBDA_QUALIFIER` and
/// `SOMETHING_LAMBDA_TIMEOUT_SECS`.
pub fn remote_settings(function: EnvValue, qualifier: EnvValue, timeout: EnvValue) -> (r: Result<RemoteSettings, Error>)
    ensures
        settings_result_view(r) == spec_remote_settings(function@, qualifier@, timeout@),
{
    let function = match function {
        EnvValue::Present(f) => f,
        _ => return Err(Error::Config("SOMETHING_LAMBDA_FUNCTION is required in remote mode".to_owned())),
    };
    let qualifier = match qualifier {
        EnvValue::Present(q) => q,
        _ => return Err(
            Error::Config(
                "SOMETHING_LAMBDA_QUALIFIER is required: set it to a published version or alias so the register and exec calls reach the same code".to_owned(),
            ),
        ),
    };
    let timeout_secs = match timeout {
        EnvValue::Present(t) => match parse_u64(t.as_str()) {
            Ok(secs) => secs,
            Err(e) => {
                let mut message = "SOMETHING_LAMBDA_TIMEOUT_SECS must be whole seconds: ".to_owned();
                message.append(int_error_str(e));
                return Err(Error::Config(message));
            },
        },
        _ => 30,
    };
    Ok(RemoteSettings { function, qualifier, timeout_secs })
}

/* What the client makes of an invocation */

/// `function:qualifier`, the way calls name their target.
pub open spec fn target_text(s: SpecRemoteSettings) -> Seq<char> {
    s.function + ":"@ + s.qualifier
}

fn push_target(out: &mut String, settings: &RemoteSettings)
    ensures
        final(out)@ == old(out)@ + target_text(settings@),
{
    out.append(settings.function.as_str());
    out.append(":");
    out.append(settings.qualifier.as_str());
}

/// `lambda(function:qualifier)`.
pub fn describe_remote(settings: &RemoteSettings) -> (r: String)
    ensures
        r@ == "lambda("@ + target_text(settings@) + ")"@,
{
    let mut r = "lambda(".to_owned();
    push_target(&mut r, settings);
    r.append(")");
    r
}

/// The invocation did not complete; `detail` says why.
pub fn invoke_failure(settings: &RemoteSettings, detail: &str) -> (r: TransportError)
    ensures
        r@ == "invoke "@ + target_text(settings@) + " failed: "@ + detail@,
{
    let mut message = "invoke ".to_owned();
    push_target(&mut message, settings);
    message.append(" failed: ");
    message.append(detail);
    TransportError { message }
}

/// A whole number of seconds as `Debug` writes a `Duration`: `{secs}s`,
/// and `0ns` for no time at all.
pub open spec fn seconds_text(secs: u64) -> Seq<char> {
    if secs == 0 {
        "0ns"@
    } else {
        decimal(secs as nat) + "s"@
    }
}

/// The invocation took longer than the timeout.
pub fn invoke_timeout(settings: &RemoteSettings) -> (r: TransportError)
    ensures
        r@ == "invoke "@ + target_text(settings@) + " timed out after "@ + seconds_text(settings.timeout_secs),
{
    let mut message = "invoke ".to_owned();
    push_target(&mut message, settings);
    message.append(" timed out after ");
    if settings.timeout_secs == 0 {
        message.append("0ns");
    } else {
        push_decimal(&mut message, settings.timeout_secs);
        message.append("s");
    }
    TransportError { message }
}

/// The request could not be put in an envelope; `detail` says why.
pub fn envelope_failure(detail: &str) -> (r: TransportError)
    ensures
        r@ == "could not build envelope: "@ + detail@,
{
    let mut message = "could not build envelope: ".to_owned();
    message.append(detail);
    TransportError { message }
}

/// What `String::from_utf8_lossy` makes of `bytes`.
pub uninterp spec fn lossy_text(bytes: Seq<u8>) -> Seq<char>;

/// `String::from_utf8_lossy`: the text of well-formed UTF-8 as it is, with
/// each malformed sequence replaced by U+FFFD.
#[verifier::external_body]
fn utf8_lossy(bytes: &[u8]) -> (r: String)
    ensures
        r@ == lossy_text(bytes@),
        valid_utf8(bytes@) ==> r@ == decode_utf8(bytes@),
{
    String::from_utf8_lossy(bytes).into_owned()
}

/// What an invocation brought back, before its payload is read as JSON: a
/// failure of the function itself (a crash, a timeout, an initialisation
/// error) is a transport failure, not a protocol one, and so is a missing
/// payload. Otherwise the payload, the JSON of the response envelope.
pub fn read_invoke_output(function_error: Option<String>, payload: Option<Vec<u8>>) -> (r: Result<Vec<u8>, TransportError>)
    ensures
        match function_error {
            Some(kind) => r matches Err(e) && e@ == "lambda function error ("@ + kind@ + "): "@ + match payload {
                Some(p) => lossy_text(p@),
                None => Seq::<char>::empty(),
            },
            None => match payload {
                Some(p) => r matches Ok(bytes) && bytes@ == p@,
                None => r matches Err(e) && e@ == "lambda returned an empty payload"@,
            },
        },
{
    match function_error {
        Some(kind) => {
            let detail = match &payload {
                Some(p) => utf8_lossy(p.as_slice()),
                None => String::new(),
            };
            let mut message = "lambda function error (".to_owned();
            message.append(kind.as_str());
            message.append("): ");
            message.append(detail.as_str());
            Err(TransportError { message })
        },
        None => match payload {
            Some(p) => Ok(p),
            None => Err(TransportError::new("lambda returned an empty payload")),
        },
    }
}

/// The protocol bytes inside the response envelope, or a transport failure
/// that says why the envelope could not be read.
pub fn open_response_envelope(envelope: Result<Envelope, EnvelopeError>) -> (r: Result<Vec<u8>, TransportError>)
    ensures
        match envelope {
            Ok(env) => match r {
                Ok(bytes) => base64_text(bytes@) == env.payload@,
                Err(e) => {
                    &&& forall|bytes: Seq<u8>| #[trigger] base64_text(bytes) != env.payload@
                    &&& ("bad response envelope: "@ + "envelope payload is not valid base64: "@).is_prefix_of(e@)
                },
            },
            Err(EnvelopeError::Json(detail)) => r matches Err(e) && e@ == "bad response envelope: "@
                + "envelope is not valid JSON: "@ + detail@,
            Err(EnvelopeError::Base64(_)) => r matches Err(e) && ("bad response envelope: "@
                + "envelope payload is not valid base64: "@).is_prefix_of(e@),
        },
        envelope matches Ok(env) ==> forall|bytes: Seq<u8>| #[trigger] base64_text(bytes) == env.payload@ ==> (r matches Ok(
            v,
        ) && v@ == bytes),
{
    let opened = match envelope {
        Ok(env) => env.to_bytes(),
        Err(e) => Err(e),
    };
    match opened {
        Ok(bytes) => Ok(bytes),
        Err(e) => {
            let mut message = "bad response envelope: ".to_owned();
            let text = e.to_string();
            message.append(text.as_str());
            proof {
                if let EnvelopeError::Json(detail) = e {
                    assert(message@ =~= "bad response envelope: "@ + "envelope is not valid JSON: "@ + detail@);
                } else {
                    let p = "bad response envelope: "@ + "envelope payload is not valid base64: "@;
                    assert(message@.subrange(0, p.len() as int) =~= p);
                }
            }
            Err(TransportError { message })
        },
    }
}

/* What the remote function does */

/// Whether bytes of this length can be put in an envelope: their base64
/// length must fit in a `usize`.
pub open spec fn fits_envelope(len: nat) -> bool {
    len / 3 * 4 + 4 <= usize::MAX
}

/// The envelope of the handler's answer to `bytes`, if it fits in one.
pub open spec fn answer_envelope(handler: crate::handler::SpecHandlerConfig, bytes: Seq<u8>) -> Option<Seq<char>> {
    let answer = spec_encode_response(spec_handle_bytes(handler, bytes));
    if fits_envelope(answer.len()) {
        Some(base64_text(answer))
    } else {
        None
    }
}

/// The remote function's whole job: the request bytes out of the envelope,
/// the handler's answer back into one. A bad envelope is the one failure
/// that cannot be answered in the protocol: without request bytes there is
/// no request to answer. `None` stands for an answer too large to wrap.
pub fn serve_envelope(handler: &Handler, envelope: &Envelope) -> (r: Result<Option<Envelope>, EnvelopeError>)
    ensures
        match r {
            Ok(answer) => exists|bytes: Seq<u8>| #[trigger] base64_text(bytes) == envelope.payload@
                && answer_envelope(handler@, bytes) == match answer {
                Some(a) => Some(a.payload@),
                None => None::<Seq<char>>,
            },
            Err(e) => e is Base64 && forall|bytes: Seq<u8>| #[trigger] base64_text(bytes) != envelope.payload@,
        },
        forall|bytes: Seq<u8>| #[trigger] base64_text(bytes) == envelope.payload@ ==> (r matches Ok(answer)
            && answer_envelope(handler@, bytes) == match answer {
            Some(a) => Some(a.payload@),
            None => None::<Seq<char>>,
        }),
{
    let request = match envelope.to_bytes() {
        Ok(bytes) => bytes,
        Err(e) => return Err(e),
    };
    let response = handler.handle_bytes(request.as_slice());
    if response.len() / 3 > usize::MAX / 4 - 1 {
        return Ok(None);
    }
    Ok(Some(Envelope::from_bytes(response.as_slice())))
}

/// The build a remote function reports: `name:version`, from the two
/// variables its platform sets, `local` and `dev` where they are not.
pub open spec fn spec_build_id(name: SpecEnvValue, version: SpecEnvValue) -> Seq<char> {
    let n = match name {
        SpecEnvValue::Present(s) => s,
        _ => "local"@,
    };
    let v = match version {
        SpecEnvValue::Present(s) => s,
        _ => "dev"@,
    };
    n + ":"@ + v
}

/// The build identifier a remote function reports to its clients.
pub fn build_id(name: EnvValue, version: EnvValue) -> (r: String)
    ensures
        r@ == spec_build_id(name@, version@),
{
    let mut r = match name {
        EnvValue::Present(s) => s,
        _ => "local".to_owned(),
    };
    r.append(":");
    match version {
        EnvValue::Present(s) => r.append(s.as_str()),
        _ => r.append("dev"),
    }
    r
}

} // verus!
