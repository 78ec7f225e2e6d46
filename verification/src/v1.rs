//! The messages of the `something.v1` protocol, with the mathematical value
//! of each (`Spec…` types) that contracts speak of.
//!
//! Every request body and every exec call is an explicit variant: an absent
//! body is an error to the server, never a default operation.

pub mod exec_request;
pub mod exec_response;
pub mod request;
pub mod response;

use vstd::prelude::*;

verus! {

/// An inclusive range of protocol versions.
#[derive(Debug, Clone, Copy, PartialEq, Eq)]
pub struct VersionRange {
    pub min: u32,
    pub max: u32,
}

/// A named operation and the protocol versions for which it is available.
#[derive(Debug, PartialEq, Eq)]
pub struct Capability {
    pub name: String,
    pub min_version: u32,
    pub max_version: u32,
}

pub struct SpecCapability {
    pub name: Seq<char>,
    pub min_version: u32,
    pub max_version: u32,
}

impl View for Capability {
    type V = SpecCapability;

    open spec fn view(&self) -> SpecCapability {
        SpecCapability { name: self.name@, min_version: self.min_version, max_version: self.max_version }
    }
}

impl Clone for Capability {
    fn clone(&self) -> (r: Self)
        ensures
            r@ == self@,
    {
        Capability { name: self.name.clone(), min_version: self.min_version, max_version: self.max_version }
    }
}

/// Asks the server to describe itself.
#[derive(Debug, PartialEq, Eq)]
pub struct RegisterRequest {
    /// Diagnostics only.
    pub client_build: String,
}

pub struct SpecRegisterRequest {
    pub client_build: Seq<char>,
}

impl View for RegisterRequest {
    type V = SpecRegisterRequest;

    open spec fn view(&self) -> SpecRegisterRequest {
        SpecRegisterRequest { client_build: self.client_build@ }
    }
}

/// The ping operation takes no arguments.
#[derive(Debug, Clone, Copy, PartialEq, Eq)]
pub struct PingRequest {}

/// One operation, at the version the client negotiated; `0` means that
/// negotiation was skipped.
#[derive(Debug, Clone, Copy, PartialEq, Eq)]
pub struct ExecRequest {
    pub negotiated_version: u32,
    pub call: Option<exec_request::Call>,
}

impl View for ExecRequest {
    type V = ExecRequest;

    open spec fn view(&self) -> ExecRequest {
        *self
    }
}

/// A request: register or exec.
#[derive(Debug, PartialEq, Eq)]
pub struct Request {
    pub body: Option<request::Body>,
}

pub struct SpecRequest {
    pub body: Option<request::SpecBody>,
}

impl View for Request {
    type V = SpecRequest;

    open spec fn view(&self) -> SpecRequest {
        SpecRequest {
            body: match self.body {
                Some(b) => Some(b@),
                None => None,
            },
        }
    }
}

/// What the server says about itself.
#[derive(Debug, PartialEq, Eq)]
pub struct RegisterResponse {
    pub build: String,
    pub capabilities: Vec<Capability>,
    /// Request versions the server accepts.
    pub inbound: Option<VersionRange>,
    /// Response versions the server can emit.
    pub outbound: Option<VersionRange>,
    /// Informational key/value pairs, e.g. the largest payload accepted.
    pub limits: Limits,
}

pub struct SpecRegisterResponse {
    pub build: Seq<char>,
    pub capabilities: Seq<SpecCapability>,
    pub inbound: Option<VersionRange>,
    pub outbound: Option<VersionRange>,
    pub limits: Seq<(Seq<char>, Seq<char>)>,
}

/// The mathematical values of a list of capabilities.
pub open spec fn capabilities_view(caps: Seq<Capability>) -> Seq<SpecCapability> {
    caps.map_values(|c: Capability| c@)
}

/// The mathematical values of a list of key/value pairs.
pub open spec fn pairs_view(pairs: Seq<(String, String)>) -> Seq<(Seq<char>, Seq<char>)> {
    pairs.map_values(|e: (String, String)| (e.0@, e.1@))
}

impl View for RegisterResponse {
    type V = SpecRegisterResponse;

    open spec fn view(&self) -> SpecRegisterResponse {
        SpecRegisterResponse {
            build: self.build@,
            capabilities: capabilities_view(self.capabilities@),
            inbound: self.inbound,
            outbound: self.outbound,
            limits: self.limits@,
        }
    }
}

/// The keys of `pairs` are pairwise distinct, as in a map.
pub open spec fn distinct_keys(pairs: Seq<(Seq<char>, Seq<char>)>) -> bool {
    forall|i: int, j: int| 0 <= i < j < pairs.len() ==> pairs[i].0 != pairs[j].0
}

/// The first index at or after `i` whose key is `k`, or the length when
/// there is none.
pub open spec fn find_key(pairs: Seq<(Seq<char>, Seq<char>)>, k: Seq<char>, i: int) -> int
    decreases pairs.len() - i,
{
    if i < 0 || i >= pairs.len() {
        pairs.len() as int
    } else if pairs[i].0 == k {
        i
    } else {
        find_key(pairs, k, i + 1)
    }
}

/// Map insertion: a key already present takes the new value in place, a new
/// key goes at the end.
pub open spec fn insert_pair(pairs: Seq<(Seq<char>, Seq<char>)>, k: Seq<char>, v: Seq<char>) -> Seq<(Seq<char>, Seq<char>)> {
    let j = find_key(pairs, k, 0);
    if j < pairs.len() {
        pairs.update(j, (k, v))
    } else {
        pairs.push((k, v))
    }
}

pub proof fn lemma_find_key_range(pairs: Seq<(Seq<char>, Seq<char>)>, k: Seq<char>, i: int)
    requires
        0 <= i,
    ensures
        i <= find_key(pairs, k, i) <= pairs.len() || (i > pairs.len() && find_key(pairs, k, i) == pairs.len()),
        find_key(pairs, k, i) < pairs.len() ==> pairs[find_key(pairs, k, i)].0 == k,
        forall|j: int| i <= j < find_key(pairs, k, i) ==> pairs[j].0 != k,
    decreases pairs.len() - i,
{
    if i < pairs.len() && pairs[i].0 != k {
        lemma_find_key_range(pairs, k, i + 1);
    }
}

/// Inserting keeps the keys distinct.
pub proof fn lemma_insert_pair_distinct(pairs: Seq<(Seq<char>, Seq<char>)>, k: Seq<char>, v: Seq<char>)
    requires
        distinct_keys(pairs),
    ensures
        distinct_keys(insert_pair(pairs, k, v)),
{
    lemma_find_key_range(pairs, k, 0);
}

/// Informational key/value pairs, as a map: each key at most once, kept in
/// the order in which keys were first inserted.
#[derive(Debug, PartialEq, Eq)]
pub struct Limits {
    pairs: Vec<(String, String)>,
}

impl View for Limits {
    type V = Seq<(Seq<char>, Seq<char>)>;

    closed spec fn view(&self) -> Seq<(Seq<char>, Seq<char>)> {
        pairs_view(self.pairs@)
    }
}

impl Limits {
    #[verifier::type_invariant]
    pub closed spec fn keys_distinct(self) -> bool {
        distinct_keys(pairs_view(self.pairs@))
    }

    /// What the invariant of `Limits` states.
    pub proof fn lemma_keys_distinct(self)
        requires
            self.keys_distinct(),
        ensures
            distinct_keys(self@),
    {
    }

    /// No pairs.
    pub fn new() -> (r: Limits)
        ensures
            r@ == Seq::<(Seq<char>, Seq<char>)>::empty(),
    {
        let r = Limits { pairs: Vec::new() };
        assert(pairs_view(r.pairs@) =~= Seq::<(Seq<char>, Seq<char>)>::empty());
        r
    }

    /// The number of pairs.
    pub fn len(&self) -> (r: usize)
        ensures
            r == self@.len(),
    {
        self.pairs.len()
    }

    /// The pairs, in order.
    pub fn pairs(&self) -> (r: &Vec<(String, String)>)
        ensures
            pairs_view(r@) == self@,
    {
        &self.pairs
    }

    /// Sets the value of `key`: in place if the key is present, at the end
    /// otherwise.
    pub fn insert(&mut self, key: String, value: String)
        ensures
            final(self)@ == insert_pair(old(self)@, key@, value@),
    {
        proof {
            use_type_invariant(&*self);
            lemma_insert_pair_distinct(pairs_view(self.pairs@), key@, value@);
        }
        let ghost pv = pairs_view(self.pairs@);
        let mut j: usize = 0;
        while j < self.pairs.len()
            invariant
                j <= self.pairs@.len(),
                self.pairs@ == old(self).pairs@,
                pv == pairs_view(self.pairs@),
                distinct_keys(insert_pair(pv, key@, value@)),
                find_key(pv, key@, 0) == find_key(pv, key@, j as int),
            decreases self.pairs@.len() - j,
        {
            if self.pairs[j].0 == key {
                proof {
                    assert(find_key(pv, key@, j as int) == j);
                }
                let mut pairs: Vec<(String, String)> = Vec::new();
                std::mem::swap(&mut pairs, &mut self.pairs);
                pairs.set(j, (key, value));
                assert(pairs_view(pairs@) =~= insert_pair(pv, key@, value@));
                self.pairs = pairs;
                return;
            }
            j = j + 1;
        }
        let mut pairs: Vec<(String, String)> = Vec::new();
        std::mem::swap(&mut pairs, &mut self.pairs);
        pairs.push((key, value));
        assert(pairs_view(pairs@) =~= insert_pair(pv, key@, value@));
        self.pairs = pairs;
    }

    /// Whether `key` has a value.
    pub fn contains_key(&self, key: &str) -> (r: bool)
        ensures
            r == (exists|i: int| 0 <= i < self@.len() && self@[i].0 == key@),
    {
        let wanted = key.to_owned();
        let mut j: usize = 0;
        while j < self.pairs.len()
            invariant
                j <= self.pairs@.len(),
                wanted@ == key@,
                forall|i: int| 0 <= i < j ==> self@[i].0 != key@,
            decreases self.pairs@.len() - j,
        {
            if self.pairs[j].0 == wanted {
                assert(self@[j as int].0 == key@);
                return true;
            }
            j = j + 1;
        }
        false
    }
}

impl Clone for Limits {
    fn clone(&self) -> (r: Self)
        ensures
            r@ == self@,
    {
        proof { use_type_invariant(self); }
        let mut pairs: Vec<(String, String)> = Vec::new();
        let mut j: usize = 0;
        while j < self.pairs.len()
            invariant
                j <= self.pairs@.len(),
                pairs_view(pairs@) == pairs_view(self.pairs@.take(j as int)),
            decreases self.pairs@.len() - j,
        {
            let k = self.pairs[j].0.clone();
            let v = self.pairs[j].1.clone();
            let ghost before = pairs@;
            pairs.push((k, v));
            assert(self.pairs@.take(j + 1) =~= self.pairs@.take(j as int).push(self.pairs@[j as int]));
            assert(pairs@ =~= before.push((k, v)));
            assert(pairs_view(pairs@) =~= pairs_view(before).push((k@, v@)));
            assert(pairs_view(self.pairs@.take(j + 1)) =~= pairs_view(self.pairs@.take(j as int)).push((k@, v@)));
            j = j + 1;
        }
        assert(self.pairs@.take(j as int) =~= self.pairs@);
        Limits { pairs }
    }
}

/// The result of a ping.
#[derive(Debug, PartialEq, Eq)]
pub struct PingResponse {
    pub message: String,
}

pub struct SpecPingResponse {
    pub message: Seq<char>,
}

impl View for PingResponse {
    type V = SpecPingResponse;

    open spec fn view(&self) -> SpecPingResponse {
        SpecPingResponse { message: self.message@ }
    }
}

/// The result of an exec call.
#[derive(Debug, PartialEq, Eq)]
pub struct ExecResponse {
    pub output: Option<exec_response::Output>,
}

pub struct SpecExecResponse {
    pub output: Option<exec_response::SpecOutput>,
}

impl View for ExecResponse {
    type V = SpecExecResponse;

    open spec fn view(&self) -> SpecExecResponse {
        SpecExecResponse {
            output: match self.output {
                Some(o) => Some(o@),
                None => None,
            },
        }
    }
}

/// Why the server refused a request.
#[derive(Debug, Clone, Copy, PartialEq, Eq)]
pub enum ErrorCode {
    Unspecified,
    InvalidRequest,
    MissingVersion,
    UnsupportedVersion,
    UnsupportedCapability,
    Internal,
}

/// The number an error code travels as.
pub open spec fn error_code_number(code: ErrorCode) -> i32 {
    match code {
        ErrorCode::Unspecified => 0,
        ErrorCode::InvalidRequest => 1,
        ErrorCode::MissingVersion => 2,
        ErrorCode::UnsupportedVersion => 3,
        ErrorCode::UnsupportedCapability => 4,
        ErrorCode::Internal => 5,
    }
}

/// The error code a number stands for; an unknown number reads as
/// `Unspecified`.
pub open spec fn error_code_of(n: i32) -> ErrorCode {
    if n == 1 {
        ErrorCode::InvalidRequest
    } else if n == 2 {
        ErrorCode::MissingVersion
    } else if n == 3 {
        ErrorCode::UnsupportedVersion
    } else if n == 4 {
        ErrorCode::UnsupportedCapability
    } else if n == 5 {
        ErrorCode::Internal
    } else {
        ErrorCode::Unspecified
    }
}

/// Error codes travel as the numbers of the protocol's enumeration:
/// `UNSPECIFIED = 0`, `INVALID_REQUEST = 1`, `MISSING_VERSION = 2`,
/// `UNSUPPORTED_VERSION = 3`, `UNSUPPORTED_CAPABILITY = 4`, `INTERNAL = 5`.
/// Reading a number back gives the code it stands for, and a number that
/// stands for none reads as unspecified.
pub proof fn lemma_error_code_numbers()
    ensures
        error_code_number(ErrorCode::Unspecified) == 0,
        error_code_number(ErrorCode::InvalidRequest) == 1,
        error_code_number(ErrorCode::MissingVersion) == 2,
        error_code_number(ErrorCode::UnsupportedVersion) == 3,
        error_code_number(ErrorCode::UnsupportedCapability) == 4,
        error_code_number(ErrorCode::Internal) == 5,
        forall|c: ErrorCode| error_code_of(#[trigger] error_code_number(c)) == c,
        forall|n: i32| #![trigger error_code_of(n)] n < 0 || n > 5 ==> error_code_of(n) == ErrorCode::Unspecified,
{
}

impl ErrorCode {
    /// The number this code travels as.
    pub fn number(self) -> (r: i32)
        ensures
            r == error_code_number(self),
    {
        match self {
            ErrorCode::Unspecified => 0,
            ErrorCode::InvalidRequest => 1,
            ErrorCode::MissingVersion => 2,
            ErrorCode::UnsupportedVersion => 3,
            ErrorCode::UnsupportedCapability => 4,
            ErrorCode::Internal => 5,
        }
    }

    /// The code a number stands for, `Unspecified` when it stands for none.
    pub fn from_number(n: i32) -> (r: ErrorCode)
        ensures
            r == error_code_of(n),
    {
        if n == 1 {
            ErrorCode::InvalidRequest
        } else if n == 2 {
            ErrorCode::MissingVersion
        } else if n == 3 {
            ErrorCode::UnsupportedVersion
        } else if n == 4 {
            ErrorCode::UnsupportedCapability
        } else if n == 5 {
            ErrorCode::Internal
        } else {
            ErrorCode::Unspecified
        }
    }
}

/// A refusal: an error code (kept as its number, as on the wire) and a
/// message for people.
#[derive(Debug, PartialEq, Eq)]
pub struct ErrorResponse {
    pub code: i32,
    pub message: String,
}

pub struct SpecErrorResponse {
    pub code: i32,
    pub message: Seq<char>,
}

impl View for ErrorResponse {
    type V = SpecErrorResponse;

    open spec fn view(&self) -> SpecErrorResponse {
        SpecErrorResponse { code: self.code, message: self.message@ }
    }
}

impl ErrorResponse {
    /// The error code, `Unspecified` for a number that names none.
    pub fn code(&self) -> (r: ErrorCode)
        ensures
            r == error_code_of(self.code),
    {
        ErrorCode::from_number(self.code)
    }
}

/// A response: register, exec or error.
#[derive(Debug, PartialEq, Eq)]
pub struct Response {
    pub body: Option<response::Body>,
}

pub struct SpecResponse {
    pub body: Option<response::SpecBody>,
}

impl View for Response {
    type V = SpecResponse;

    open spec fn view(&self) -> SpecResponse {
        SpecResponse {
            body: match self.body {
                Some(b) => Some(b@),
                None => None,
            },
        }
    }
}

} // verus!
