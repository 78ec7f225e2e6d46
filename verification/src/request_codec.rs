//! Protobuf encoding and decoding of requests, proved to be inverse to each
//! other.
//!
//! Decoding follows the proto3 rules that the message definitions imply: a
//! scalar field read twice keeps the last value, a message field read twice
//! merges, a field the message does not know is skipped, and every
//! malformation rejects the whole message.

use vstd::prelude::*;
use crate::v1::{request, exec_request, ExecRequest, PingRequest, RegisterRequest, Request, SpecRegisterRequest, SpecRequest};
use crate::wire::{
    bytes_at, lemma_bytes_at_split, lemma_message_field_roundtrip, lemma_read_key_range,
    lemma_skip_field_range, lemma_string_field_roundtrip, lemma_u32_field_roundtrip, read_key,
    read_message_frame, read_string, read_u32, skip_field, spec_frame, spec_read_key,
    spec_read_message_frame, spec_read_string, spec_read_u32, spec_skip_field, spec_string_field,
    spec_u32_field, write_frame, write_string_field, write_u32_field, lemma_read_frame_range,
};

verus! {

/// The nesting allowance a top-level decode starts with.
pub const RECURSION_LIMIT: u32 = 100;

/// Decoding failed: the bytes are not an encoding of the expected message.
#[derive(Debug, Clone, Copy, PartialEq, Eq)]
pub struct MalformedMessage {}

/* Specification of the encoding */

pub open spec fn spec_encode_register_request(m: SpecRegisterRequest) -> Seq<u8> {
    spec_string_field(1, m.client_build)
}

pub open spec fn spec_encode_exec_request(m: ExecRequest) -> Seq<u8> {
    spec_u32_field(1, m.negotiated_version) + match m.call {
        Some(exec_request::Call::Ping(_)) => spec_frame(2, Seq::empty()),
        None => Seq::empty(),
    }
}

/// The bytes a request is sent as.
pub open spec fn spec_encode_request(m: SpecRequest) -> Seq<u8> {
    match m.body {
        Some(request::SpecBody::Register(r)) => spec_frame(1, spec_encode_register_request(r)),
        Some(request::SpecBody::Exec(e)) => spec_frame(2, spec_encode_exec_request(e)),
        None => Seq::empty(),
    }
}

/* Specification of the decoding */

pub open spec fn default_register_request() -> SpecRegisterRequest {
    SpecRegisterRequest { client_build: Seq::empty() }
}

pub open spec fn default_exec_request() -> ExecRequest {
    ExecRequest { negotiated_version: 0, call: None }
}

/// Whether `[pos, end)` holds valid `PingRequest` fields; it defines none,
/// so each is skipped.
pub open spec fn spec_ping_request_fields(s: Seq<u8>, pos: int, end: int, budget: nat) -> bool
    decreases end - pos,
{
    if !(0 <= pos <= end <= s.len()) {
        false
    } else if pos == end {
        true
    } else {
        match spec_read_key(s, pos, end) {
            None => false,
            Some((tag, wt, p)) => match spec_skip_field(s, p, end, wt, tag, budget) {
                Some(q) => if pos < q <= end { spec_ping_request_fields(s, q, end, budget) } else { false },
                None => false,
            },
        }
    }
}

/// Merges the fields in `[pos, end)` into the `RegisterRequest` `acc`.
pub open spec fn spec_register_request_fields(
    s: Seq<u8>,
    pos: int,
    end: int,
    acc: SpecRegisterRequest,
    budget: nat,
) -> Option<SpecRegisterRequest>
    decreases end - pos,
{
    if !(0 <= pos <= end <= s.len()) {
        None
    } else if pos == end {
        Some(acc)
    } else {
        match spec_read_key(s, pos, end) {
            None => None,
            Some((tag, wt, p)) => if tag == 1 {
                match spec_read_string(s, p, end, wt) {
                    Some((v, q)) => if pos < q <= end {
                        spec_register_request_fields(s, q, end, SpecRegisterRequest { client_build: v }, budget)
                    } else {
                        None
                    },
                    None => None,
                }
            } else {
                match spec_skip_field(s, p, end, wt, tag, budget) {
                    Some(q) => if pos < q <= end { spec_register_request_fields(s, q, end, acc, budget) } else { None },
                    None => None,
                }
            },
        }
    }
}

/// Merges the fields in `[pos, end)` into the `ExecRequest` `acc`.
pub open spec fn spec_exec_request_fields(s: Seq<u8>, pos: int, end: int, acc: ExecRequest, budget: nat) -> Option<ExecRequest>
    decreases end - pos,
{
    if !(0 <= pos <= end <= s.len()) {
        None
    } else if pos == end {
        Some(acc)
    } else {
        match spec_read_key(s, pos, end) {
            None => None,
            Some((tag, wt, p)) => if tag == 1 {
                match spec_read_u32(s, p, end, wt) {
                    Some((v, q)) => if pos < q <= end {
                        spec_exec_request_fields(s, q, end, ExecRequest { negotiated_version: v, ..acc }, budget)
                    } else {
                        None
                    },
                    None => None,
                }
            } else if tag == 2 {
                match spec_read_message_frame(s, p, end, wt, budget) {
                    Some((a, b)) => if pos < b <= end && spec_ping_request_fields(s, a, b, (budget - 1) as nat) {
                        spec_exec_request_fields(
                            s,
                            b,
                            end,
                            ExecRequest { call: Some(exec_request::Call::Ping(PingRequest {})), ..acc },
                            budget,
                        )
                    } else {
                        None
                    },
                    None => None,
                }
            } else {
                match spec_skip_field(s, p, end, wt, tag, budget) {
                    Some(q) => if pos < q <= end { spec_exec_request_fields(s, q, end, acc, budget) } else { None },
                    None => None,
                }
            },
        }
    }
}

/// Merges the fields in `[pos, end)` into the request `acc`. A body of the
/// variant already present merges into it; another variant replaces it.
pub open spec fn spec_request_fields(s: Seq<u8>, pos: int, end: int, acc: SpecRequest, budget: nat) -> Option<SpecRequest>
    decreases end - pos,
{
    if !(0 <= pos <= end <= s.len()) {
        None
    } else if pos == end {
        Some(acc)
    } else {
        match spec_read_key(s, pos, end) {
            None => None,
            Some((tag, wt, p)) => if tag == 1 {
                let existing = match acc.body {
                    Some(request::SpecBody::Register(r)) => r,
                    _ => default_register_request(),
                };
                match spec_read_message_frame(s, p, end, wt, budget) {
                    Some((a, b)) => if pos < b <= end {
                        match spec_register_request_fields(s, a, b, existing, (budget - 1) as nat) {
                            Some(r) => spec_request_fields(
                                s,
                                b,
                                end,
                                SpecRequest { body: Some(request::SpecBody::Register(r)) },
                                budget,
                            ),
                            None => None,
                        }
                    } else {
                        None
                    },
                    None => None,
                }
            } else if tag == 2 {
                let existing = match acc.body {
                    Some(request::SpecBody::Exec(e)) => e,
                    _ => default_exec_request(),
                };
                match spec_read_message_frame(s, p, end, wt, budget) {
                    Some((a, b)) => if pos < b <= end {
                        match spec_exec_request_fields(s, a, b, existing, (budget - 1) as nat) {
                            Some(e) => spec_request_fields(s, b, end, SpecRequest { body: Some(request::SpecBody::Exec(e)) }, budget),
                            None => None,
                        }
                    } else {
                        None
                    },
                    None => None,
                }
            } else {
                match spec_skip_field(s, p, end, wt, tag, budget) {
                    Some(q) => if pos < q <= end { spec_request_fields(s, q, end, acc, budget) } else { None },
                    None => None,
                }
            },
        }
    }
}

/// The request that `bytes` encode, if they encode one.
pub open spec fn spec_decode_request(bytes: Seq<u8>) -> Option<SpecRequest> {
    spec_request_fields(bytes, 0, bytes.len() as int, SpecRequest { body: None }, RECURSION_LIMIT as nat)
}

/* Decoding reads back what encoding wrote */

proof fn lemma_register_request_roundtrip(s: Seq<u8>, pos: int, m: SpecRegisterRequest, budget: nat)
    requires
        bytes_at(s, pos, spec_encode_register_request(m)),
        spec_encode_register_request(m).len() < 0x1_0000_0000_0000_0000,
    ensures
        spec_register_request_fields(s, pos, pos + spec_encode_register_request(m).len(), default_register_request(), budget)
            == Some(m),
{
    let end = pos + spec_encode_register_request(m).len();
    if m.client_build.len() == 0 {
        assert(m.client_build =~= Seq::<char>::empty());
    } else {
        lemma_string_field_roundtrip(s, pos, end, 1, m.client_build);
        assert(spec_register_request_fields(s, end, end, SpecRegisterRequest { client_build: m.client_build }, budget) == Some(m));
    }
}

proof fn lemma_exec_request_roundtrip(s: Seq<u8>, pos: int, m: ExecRequest, budget: nat)
    requires
        budget >= 1,
        bytes_at(s, pos, spec_encode_exec_request(m)),
        spec_encode_exec_request(m).len() < 0x1_0000_0000_0000_0000,
    ensures
        spec_exec_request_fields(s, pos, pos + spec_encode_exec_request(m).len(), default_exec_request(), budget)
            == Some(m),
{
    let f1 = spec_u32_field(1, m.negotiated_version);
    let f2 = match m.call {
        Some(exec_request::Call::Ping(_)) => spec_frame(2, Seq::empty()),
        None => Seq::empty(),
    };
    let end = pos + spec_encode_exec_request(m).len();
    let p1 = pos + f1.len();
    let acc1 = ExecRequest { negotiated_version: m.negotiated_version, call: None };
    lemma_bytes_at_split(s, pos, f1, f2);
    if m.negotiated_version != 0 {
        lemma_u32_field_roundtrip(s, pos, end, 1, m.negotiated_version);
    }
    assert(spec_exec_request_fields(s, pos, end, default_exec_request(), budget)
        == spec_exec_request_fields(s, p1, end, acc1, budget));
    match m.call {
        Some(exec_request::Call::Ping(x)) => {
            assert(x == PingRequest {});
            lemma_message_field_roundtrip(s, p1, end, 2, Seq::empty(), budget);
            assert(spec_ping_request_fields(s, end, end, (budget - 1) as nat));
            assert(spec_exec_request_fields(s, p1, end, acc1, budget) == spec_exec_request_fields(s, end, end, m, budget));
        },
        None => {},
    }
}

proof fn lemma_request_roundtrip(s: Seq<u8>, pos: int, m: SpecRequest, budget: nat)
    requires
        budget >= 2,
        bytes_at(s, pos, spec_encode_request(m)),
        spec_encode_request(m).len() < 0x1_0000_0000_0000_0000,
    ensures
        spec_request_fields(s, pos, pos + spec_encode_request(m).len(), SpecRequest { body: None }, budget) == Some(m),
{
    let end = pos + spec_encode_request(m).len();
    match m.body {
        Some(request::SpecBody::Register(r)) => {
            let body = spec_encode_register_request(r);
            lemma_message_field_roundtrip(s, pos, end, 1, body, budget);
            lemma_register_request_roundtrip(s, end - body.len(), r, (budget - 1) as nat);
            assert(spec_request_fields(s, end, end, m, budget) == Some(m));
        },
        Some(request::SpecBody::Exec(e)) => {
            let body = spec_encode_exec_request(e);
            lemma_message_field_roundtrip(s, pos, end, 2, body, budget);
            lemma_exec_request_roundtrip(s, end - body.len(), e, (budget - 1) as nat);
            assert(spec_request_fields(s, end, end, m, budget) == Some(m));
        },
        None => {},
    }
}

/// Decoding the encoding of a request gives the request back.
pub proof fn lemma_decode_encode_request(m: SpecRequest)
    requires
        spec_encode_request(m).len() < 0x1_0000_0000_0000_0000,
    ensures
        spec_decode_request(spec_encode_request(m)) == Some(m),
{
    let s = spec_encode_request(m);
    assert(s.subrange(0, s.len() as int) =~= s);
    lemma_request_roundtrip(s, 0, m, RECURSION_LIMIT as nat);
}

/* Encoding */

fn encode_register_request(m: &RegisterRequest, out: &mut Vec<u8>)
    ensures
        final(out)@ == old(out)@ + spec_encode_register_request(m@),
{
    write_string_field(1, &m.client_build, out);
}

fn encode_exec_request(m: &ExecRequest, out: &mut Vec<u8>)
    ensures
        final(out)@ == old(out)@ + spec_encode_exec_request(*m),
{
    write_u32_field(1, m.negotiated_version, out);
    match m.call {
        Some(exec_request::Call::Ping(_)) => {
            let mut body: Vec<u8> = Vec::new();
            write_frame(2, &mut body, out);
        },
        None => {},
    }
    assert(final(out)@ =~= old(out)@ + spec_encode_exec_request(*m));
}

impl Request {
    /// The bytes this request is sent as.
    pub fn encode_to_vec(&self) -> (r: Vec<u8>)
        ensures
            r@ == spec_encode_request(self@),
    {
        let mut out: Vec<u8> = Vec::new();
        match &self.body {
            Some(request::Body::Register(r)) => {
                let mut body: Vec<u8> = Vec::new();
                encode_register_request(r, &mut body);
                write_frame(1, &mut body, &mut out);
            },
            Some(request::Body::Exec(e)) => {
                let mut body: Vec<u8> = Vec::new();
                encode_exec_request(e, &mut body);
                write_frame(2, &mut body, &mut out);
            },
            None => {},
        }
        assert(out@ =~= spec_encode_request(self@));
        out
    }

    /// The request that `bytes` encode.
    pub fn decode(bytes: &[u8]) -> (r: Result<Request, MalformedMessage>)
        ensures
            match r {
                Ok(m) => spec_decode_request(bytes@) == Some(m@),
                Err(_) => spec_decode_request(bytes@) is None,
            },
    {
        match request_fields(bytes, 0, bytes.len(), Request { body: None }, RECURSION_LIMIT) {
            Some(m) => Ok(m),
            None => Err(MalformedMessage {}),
        }
    }
}

/* Decoding */

fn ping_request_fields(s: &[u8], pos: usize, end: usize, budget: u32) -> (r: bool)
    requires
        pos <= end <= s@.len(),
    ensures
        r == spec_ping_request_fields(s@, pos as int, end as int, budget as nat),
{
    let mut i = pos;
    while i < end
        invariant
            i <= end <= s@.len(),
            spec_ping_request_fields(s@, pos as int, end as int, budget as nat)
                == spec_ping_request_fields(s@, i as int, end as int, budget as nat),
        decreases end - i,
    {
        match read_key(s, i, end) {
            None => return false,
            Some((tag, wt, p)) => {
                proof { lemma_read_key_range(s@, i as int, end as int); }
                match skip_field(s, p, end, wt, tag, budget) {
                    Some(q) => {
                        if i < q && q <= end {
                            i = q;
                        } else {
                            return false;
                        }
                    },
                    None => return false,
                }
            },
        }
    }
    true
}

fn register_request_fields(s: &[u8], pos: usize, end: usize, acc: RegisterRequest, budget: u32) -> (r: Option<RegisterRequest>)
    requires
        pos <= end <= s@.len(),
    ensures
        match r {
            Some(m) => spec_register_request_fields(s@, pos as int, end as int, acc@, budget as nat) == Some(m@),
            None => spec_register_request_fields(s@, pos as int, end as int, acc@, budget as nat) is None,
        },
{
    let mut i = pos;
    let mut cur = acc;
    while i < end
        invariant
            i <= end <= s@.len(),
            spec_register_request_fields(s@, pos as int, end as int, acc@, budget as nat)
                == spec_register_request_fields(s@, i as int, end as int, cur@, budget as nat),
        decreases end - i,
    {
        match read_key(s, i, end) {
            None => return None,
            Some((tag, wt, p)) => {
                proof { lemma_read_key_range(s@, i as int, end as int); }
                if tag == 1 {
                    match read_string(s, p, end, wt) {
                        Some((v, q)) => {
                            if i < q && q <= end {
                                cur = RegisterRequest { client_build: v };
                                i = q;
                            } else {
                                return None;
                            }
                        },
                        None => return None,
                    }
                } else {
                    match skip_field(s, p, end, wt, tag, budget) {
                        Some(q) => {
                            if i < q && q <= end {
                                i = q;
                            } else {
                                return None;
                            }
                        },
                        None => return None,
                    }
                }
            },
        }
    }
    Some(cur)
}

fn exec_request_fields(s: &[u8], pos: usize, end: usize, acc: ExecRequest, budget: u32) -> (r: Option<ExecRequest>)
    requires
        pos <= end <= s@.len(),
    ensures
        match r {
            Some(m) => spec_exec_request_fields(s@, pos as int, end as int, acc, budget as nat) == Some(m),
            None => spec_exec_request_fields(s@, pos as int, end as int, acc, budget as nat) is None,
        },
{
    let mut i = pos;
    let mut cur = acc;
    while i < end
        invariant
            i <= end <= s@.len(),
            spec_exec_request_fields(s@, pos as int, end as int, acc@, budget as nat)
                == spec_exec_request_fields(s@, i as int, end as int, cur, budget as nat),
        decreases end - i,
    {
        match read_key(s, i, end) {
            None => return None,
            Some((tag, wt, p)) => {
                proof { lemma_read_key_range(s@, i as int, end as int); }
                if tag == 1 {
                    match read_u32(s, p, end, wt) {
                        Some((v, q)) => {
                            if i < q && q <= end {
                                cur = ExecRequest { negotiated_version: v, ..cur };
                                i = q;
                            } else {
                                return None;
                            }
                        },
                        None => return None,
                    }
                } else if tag == 2 {
                    match read_message_frame(s, p, end, wt, budget) {
                        Some((a, b)) => {
                            proof { lemma_read_frame_range(s@, p as int, end as int); }
                            if i < b && b <= end && ping_request_fields(s, a, b, budget - 1) {
                                cur = ExecRequest { call: Some(exec_request::Call::Ping(PingRequest {})), ..cur };
                                i = b;
                            } else {
                                return None;
                            }
                        },
                        None => return None,
                    }
                } else {
                    match skip_field(s, p, end, wt, tag, budget) {
                        Some(q) => {
                            if i < q && q <= end {
                                i = q;
                            } else {
                                return None;
                            }
                        },
                        None => return None,
                    }
                }
            },
        }
    }
    Some(cur)
}

fn request_fields(s: &[u8], pos: usize, end: usize, acc: Request, budget: u32) -> (r: Option<Request>)
    requires
        pos <= end <= s@.len(),
    ensures
        match r {
            Some(m) => spec_request_fields(s@, pos as int, end as int, acc@, budget as nat) == Some(m@),
            None => spec_request_fields(s@, pos as int, end as int, acc@, budget as nat) is None,
        },
{
    let mut i = pos;
    let mut cur = acc;
    while i < end
        invariant
            i <= end <= s@.len(),
            spec_request_fields(s@, pos as int, end as int, acc@, budget as nat)
                == spec_request_fields(s@, i as int, end as int, cur@, budget as nat),
        decreases end - i,
    {
        match read_key(s, i, end) {
            None => return None,
            Some((tag, wt, p)) => {
                proof { lemma_read_key_range(s@, i as int, end as int); }
                if tag == 1 || tag == 2 {
                    match read_message_frame(s, p, end, wt, budget) {
                        Some((a, b)) => {
                            proof { lemma_read_frame_range(s@, p as int, end as int); }
                            if !(i < b && b <= end) {
                                return None;
                            }
                            if tag == 1 {
                                let existing = match cur.body {
                                    Some(request::Body::Register(r)) => r,
                                    _ => RegisterRequest { client_build: String::new() },
                                };
                                match register_request_fields(s, a, b, existing, budget - 1) {
                                    Some(r) => {
                                        cur = Request { body: Some(request::Body::Register(r)) };
                                        i = b;
                                    },
                                    None => return None,
                                }
                            } else {
                                let existing = match cur.body {
                                    Some(request::Body::Exec(e)) => e,
                                    _ => ExecRequest { negotiated_version: 0, call: None },
                                };
                                match exec_request_fields(s, a, b, existing, budget - 1) {
                                    Some(e) => {
                                        cur = Request { body: Some(request::Body::Exec(e)) };
                                        i = b;
                                    },
                                    None => return None,
                                }
                            }
                        },
                        None => return None,
                    }
                } else {
                    match skip_field(s, p, end, wt, tag, budget) {
                        Some(q) => {
                            if i < q && q <= end {
                                i = q;
                            } else {
                                return None;
                            }
                        },
                        None => return None,
                    }
                }
            },
        }
    }
    Some(cur)
}

} // verus!
