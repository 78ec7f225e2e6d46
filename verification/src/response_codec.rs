//! Protobuf encoding and decoding of responses, proved to be inverse to each
//! other for every response whose limit keys are distinct.

use vstd::prelude::*;
use crate::request_codec::{MalformedMessage, RECURSION_LIMIT};
use crate::v1::{
    distinct_keys, find_key, insert_pair, Limits,
    capabilities_view, exec_response, pairs_view, response, Capability, ErrorResponse, ExecResponse,
    PingResponse, RegisterResponse, Response, SpecCapability, SpecErrorResponse, SpecExecResponse,
    SpecPingResponse, SpecRegisterResponse, SpecResponse, VersionRange,
};
use crate::wire::{
    bytes_at, lemma_bytes_at_split, lemma_i32_field_roundtrip, lemma_message_field_roundtrip,
    lemma_read_frame_range, lemma_read_key_range, lemma_string_field_roundtrip,
    lemma_u32_field_roundtrip, read_frame, read_i32, read_key, read_message_frame, read_string,
    read_u32, skip_field, spec_frame, spec_i32_field, spec_read_frame, spec_read_i32, spec_read_key,
    spec_read_message_frame, spec_read_string, spec_read_u32, spec_skip_field, spec_string_field,
    spec_u32_field, write_frame, write_i32_field, write_string_field, write_u32_field,
};

verus! {

/* Specification of the encoding */

pub open spec fn spec_encode_version_range(r: VersionRange) -> Seq<u8> {
    spec_u32_field(1, r.min) + spec_u32_field(2, r.max)
}

pub open spec fn spec_encode_capability(c: SpecCapability) -> Seq<u8> {
    spec_string_field(1, c.name) + spec_u32_field(2, c.min_version) + spec_u32_field(3, c.max_version)
}

/// Each capability as field 2 of the register response, in order.
pub open spec fn spec_encode_capabilities(cs: Seq<SpecCapability>) -> Seq<u8>
    decreases cs.len(),
{
    if cs.len() == 0 {
        Seq::empty()
    } else {
        spec_frame(2, spec_encode_capability(cs[0])) + spec_encode_capabilities(cs.drop_first())
    }
}

/// A map entry: the key as field 1, the value as field 2.
pub open spec fn spec_encode_limit(e: (Seq<char>, Seq<char>)) -> Seq<u8> {
    spec_string_field(1, e.0) + spec_string_field(2, e.1)
}

/// Each key/value pair as an entry of map field 5, in order.
pub open spec fn spec_encode_limits(ls: Seq<(Seq<char>, Seq<char>)>) -> Seq<u8>
    decreases ls.len(),
{
    if ls.len() == 0 {
        Seq::empty()
    } else {
        spec_frame(5, spec_encode_limit(ls[0])) + spec_encode_limits(ls.drop_first())
    }
}

pub open spec fn spec_encode_optional_range(tag: nat, r: Option<VersionRange>) -> Seq<u8> {
    match r {
        Some(x) => spec_frame(tag, spec_encode_version_range(x)),
        None => Seq::empty(),
    }
}

pub open spec fn spec_encode_register_response(m: SpecRegisterResponse) -> Seq<u8> {
    spec_string_field(1, m.build) + spec_encode_capabilities(m.capabilities) + spec_encode_optional_range(3, m.inbound)
        + spec_encode_optional_range(4, m.outbound) + spec_encode_limits(m.limits)
}

pub open spec fn spec_encode_ping_response(m: SpecPingResponse) -> Seq<u8> {
    spec_string_field(1, m.message)
}

pub open spec fn spec_encode_exec_response(m: SpecExecResponse) -> Seq<u8> {
    match m.output {
        Some(exec_response::SpecOutput::Ping(p)) => spec_frame(1, spec_encode_ping_response(p)),
        None => Seq::empty(),
    }
}

pub open spec fn spec_encode_error_response(m: SpecErrorResponse) -> Seq<u8> {
    spec_i32_field(1, m.code) + spec_string_field(2, m.message)
}

/// The bytes a response is sent as.
pub open spec fn spec_encode_response(m: SpecResponse) -> Seq<u8> {
    match m.body {
        Some(response::SpecBody::Register(r)) => spec_frame(1, spec_encode_register_response(r)),
        Some(response::SpecBody::Exec(e)) => spec_frame(2, spec_encode_exec_response(e)),
        Some(response::SpecBody::Error(e)) => spec_frame(3, spec_encode_error_response(e)),
        None => Seq::empty(),
    }
}

/* Specification of the decoding */

pub open spec fn default_version_range() -> VersionRange {
    VersionRange { min: 0, max: 0 }
}

pub open spec fn default_capability() -> SpecCapability {
    SpecCapability { name: Seq::empty(), min_version: 0, max_version: 0 }
}

pub open spec fn default_register_response() -> SpecRegisterResponse {
    SpecRegisterResponse {
        build: Seq::empty(),
        capabilities: Seq::empty(),
        inbound: None,
        outbound: None,
        limits: Seq::empty(),
    }
}

pub open spec fn default_ping_response() -> SpecPingResponse {
    SpecPingResponse { message: Seq::empty() }
}

pub open spec fn default_error_response() -> SpecErrorResponse {
    SpecErrorResponse { code: 0, message: Seq::empty() }
}

/// Reads the frame of a map entry whose key has been read. The map decoder
/// reads a length prefix whatever the wire type says, once the nesting
/// allowance is checked.
pub open spec fn spec_read_map_frame(s: Seq<u8>, pos: int, end: int, budget: nat) -> Option<(int, int)> {
    if budget == 0 {
        None
    } else {
        spec_read_frame(s, pos, end)
    }
}

/// Skips an unknown field and goes on with `next`, or fails.
pub open spec fn skip_then(s: Seq<u8>, pos: int, p: int, end: int, wt: u8, tag: u32, budget: nat) -> Option<int> {
    match spec_skip_field(s, p, end, wt, tag, budget) {
        Some(q) => if pos < q <= end { Some(q) } else { None },
        None => None,
    }
}

pub open spec fn spec_version_range_fields(s: Seq<u8>, pos: int, end: int, acc: VersionRange, budget: nat) -> Option<VersionRange>
    decreases end - pos,
{
    if !(0 <= pos <= end <= s.len()) {
        None
    } else if pos == end {
        Some(acc)
    } else {
        match spec_read_key(s, pos, end) {
            None => None,
            Some((tag, wt, p)) => if tag == 1 || tag == 2 {
                match spec_read_u32(s, p, end, wt) {
                    Some((v, q)) => if pos < q <= end {
                        spec_version_range_fields(
                            s,
                            q,
                            end,
                            if tag == 1 { VersionRange { min: v, ..acc } } else { VersionRange { max: v, ..acc } },
                            budget,
                        )
                    } else {
                        None
                    },
                    None => None,
                }
            } else {
                match skip_then(s, pos, p, end, wt, tag, budget) {
                    Some(q) => spec_version_range_fields(s, q, end, acc, budget),
                    None => None,
                }
            },
        }
    }
}

pub open spec fn spec_capability_fields(s: Seq<u8>, pos: int, end: int, acc: SpecCapability, budget: nat) -> Option<SpecCapability>
    decreases end - pos,
{
    if !(0 <= pos <= end <= s.len()) {
        None
    } else if pos == end {
        Some(acc)
    } else {
        match spec_read_key(s, pos, end) {
            None => None,
            Some((tag, wt, p)) => if tag == 1 {
                match spec_read_string(s, p, end, wt) {
                    Some((v, q)) => if pos < q <= end {
                        spec_capability_fields(s, q, end, SpecCapability { name: v, ..acc }, budget)
                    } else {
                        None
                    },
                    None => None,
                }
            } else if tag == 2 || tag == 3 {
                match spec_read_u32(s, p, end, wt) {
                    Some((v, q)) => if pos < q <= end {
                        spec_capability_fields(
                            s,
                            q,
                            end,
                            if tag == 2 { SpecCapability { min_version: v, ..acc } } else { SpecCapability { max_version: v, ..acc } },
                            budget,
                        )
                    } else {
                        None
                    },
                    None => None,
                }
            } else {
                match skip_then(s, pos, p, end, wt, tag, budget) {
                    Some(q) => spec_capability_fields(s, q, end, acc, budget),
                    None => None,
                }
            },
        }
    }
}

pub open spec fn spec_limit_fields(s: Seq<u8>, pos: int, end: int, acc: (Seq<char>, Seq<char>), budget: nat) -> Option<(Seq<char>, Seq<char>)>
    decreases end - pos,
{
    if !(0 <= pos <= end <= s.len()) {
        None
    } else if pos == end {
        Some(acc)
    } else {
        match spec_read_key(s, pos, end) {
            None => None,
            Some((tag, wt, p)) => if tag == 1 || tag == 2 {
                match spec_read_string(s, p, end, wt) {
                    Some((v, q)) => if pos < q <= end {
                        spec_limit_fields(s, q, end, if tag == 1 { (v, acc.1) } else { (acc.0, v) }, budget)
                    } else {
                        None
                    },
                    None => None,
                }
            } else {
                match skip_then(s, pos, p, end, wt, tag, budget) {
                    Some(q) => spec_limit_fields(s, q, end, acc, budget),
                    None => None,
                }
            },
        }
    }
}

pub open spec fn spec_register_response_fields(
    s: Seq<u8>,
    pos: int,
    end: int,
    acc: SpecRegisterResponse,
    budget: nat,
) -> Option<SpecRegisterResponse>
    decreases end - pos,
{
    if !(0 <= pos <= end <= s.len()) {
        None
    } else if pos == end {
        Some(acc)
    } else {
        match spec_read_key(s, pos, end) {
            None => None,
            Some((tag, wt, p)) => if tag == 1 {
                match spec_read_string(s, p, end, wt) {
                    Some((v, q)) => if pos < q <= end {
                        spec_register_response_fields(s, q, end, SpecRegisterResponse { build: v, ..acc }, budget)
                    } else {
                        None
                    },
                    None => None,
                }
            } else if tag == 2 {
                match spec_read_message_frame(s, p, end, wt, budget) {
                    Some((a, b)) => if pos < b <= end {
                        match spec_capability_fields(s, a, b, default_capability(), (budget - 1) as nat) {
                            Some(c) => spec_register_response_fields(
                                s,
                                b,
                                end,
                                SpecRegisterResponse { capabilities: acc.capabilities.push(c), ..acc },
                                budget,
                            ),
                            None => None,
                        }
                    } else {
                        None
                    },
                    None => None,
                }
            } else if tag == 3 || tag == 4 {
                let existing = if tag == 3 { acc.inbound } else { acc.outbound };
                let start = match existing {
                    Some(r) => r,
                    None => default_version_range(),
                };
                match spec_read_message_frame(s, p, end, wt, budget) {
                    Some((a, b)) => if pos < b <= end {
                        match spec_version_range_fields(s, a, b, start, (budget - 1) as nat) {
                            Some(r) => spec_register_response_fields(
                                s,
                                b,
                                end,
                                if tag == 3 {
                                    SpecRegisterResponse { inbound: Some(r), ..acc }
                                } else {
                                    SpecRegisterResponse { outbound: Some(r), ..acc }
                                },
                                budget,
                            ),
                            None => None,
                        }
                    } else {
                        None
                    },
                    None => None,
                }
            } else if tag == 5 {
                match spec_read_map_frame(s, p, end, budget) {
                    Some((a, b)) => if pos < b <= end {
                        match spec_limit_fields(s, a, b, (Seq::empty(), Seq::empty()), (budget - 1) as nat) {
                            Some(e) => spec_register_response_fields(
                                s,
                                b,
                                end,
                                SpecRegisterResponse { limits: insert_pair(acc.limits, e.0, e.1), ..acc },
                                budget,
                            ),
                            None => None,
                        }
                    } else {
                        None
                    },
                    None => None,
                }
            } else {
                match skip_then(s, pos, p, end, wt, tag, budget) {
                    Some(q) => spec_register_response_fields(s, q, end, acc, budget),
                    None => None,
                }
            },
        }
    }
}

pub open spec fn spec_ping_response_fields(s: Seq<u8>, pos: int, end: int, acc: SpecPingResponse, budget: nat) -> Option<SpecPingResponse>
    decreases end - pos,
{
    if !(0 <= pos <= end <= s.len()) {
        None
    } else if pos == end {
        Some(acc)
    } else {
        match spec_read_key(s, pos, end) {
            None => None,
            Some((tag, wt, p)) => if tag == 1 {
                match spec_read_string(s, p, end, wt) {
                    Some((v, q)) => if pos < q <= end {
                        spec_ping_response_fields(s, q, end, SpecPingResponse { message: v }, budget)
                    } else {
                        None
                    },
                    None => None,
                }
            } else {
                match skip_then(s, pos, p, end, wt, tag, budget) {
                    Some(q) => spec_ping_response_fields(s, q, end, acc, budget),
                    None => None,
                }
            },
        }
    }
}

pub open spec fn spec_exec_response_fields(s: Seq<u8>, pos: int, end: int, acc: SpecExecResponse, budget: nat) -> Option<SpecExecResponse>
    decreases end - pos,
{
    if !(0 <= pos <= end <= s.len()) {
        None
    } else if pos == end {
        Some(acc)
    } else {
        match spec_read_key(s, pos, end) {
            None => None,
            Some((tag, wt, p)) => if tag == 1 {
                let existing = match acc.output {
                    Some(exec_response::SpecOutput::Ping(x)) => x,
                    None => default_ping_response(),
                };
                match spec_read_message_frame(s, p, end, wt, budget) {
                    Some((a, b)) => if pos < b <= end {
                        match spec_ping_response_fields(s, a, b, existing, (budget - 1) as nat) {
                            Some(x) => spec_exec_response_fields(
                                s,
                                b,
                                end,
                                SpecExecResponse { output: Some(exec_response::SpecOutput::Ping(x)) },
                                budget,
                            ),
                            None => None,
                        }
                    } else {
                        None
                    },
                    None => None,
                }
            } else {
                match skip_then(s, pos, p, end, wt, tag, budget) {
                    Some(q) => spec_exec_response_fields(s, q, end, acc, budget),
                    None => None,
                }
            },
        }
    }
}

pub open spec fn spec_error_response_fields(s: Seq<u8>, pos: int, end: int, acc: SpecErrorResponse, budget: nat) -> Option<SpecErrorResponse>
    decreases end - pos,
{
    if !(0 <= pos <= end <= s.len()) {
        None
    } else if pos == end {
        Some(acc)
    } else {
        match spec_read_key(s, pos, end) {
            None => None,
            Some((tag, wt, p)) => if tag == 1 {
                match spec_read_i32(s, p, end, wt) {
                    Some((v, q)) => if pos < q <= end {
                        spec_error_response_fields(s, q, end, SpecErrorResponse { code: v, ..acc }, budget)
                    } else {
                        None
                    },
                    None => None,
                }
            } else if tag == 2 {
                match spec_read_string(s, p, end, wt) {
                    Some((v, q)) => if pos < q <= end {
                        spec_error_response_fields(s, q, end, SpecErrorResponse { message: v, ..acc }, budget)
                    } else {
                        None
                    },
                    None => None,
                }
            } else {
                match skip_then(s, pos, p, end, wt, tag, budget) {
                    Some(q) => spec_error_response_fields(s, q, end, acc, budget),
                    None => None,
                }
            },
        }
    }
}

/// Merges the fields in `[pos, end)` into the response `acc`. A body of the
/// variant already present merges into it; another variant replaces it.
pub open spec fn spec_response_fields(s: Seq<u8>, pos: int, end: int, acc: SpecResponse, budget: nat) -> Option<SpecResponse>
    decreases end - pos,
{
    if !(0 <= pos <= end <= s.len()) {
        None
    } else if pos == end {
        Some(acc)
    } else {
        match spec_read_key(s, pos, end) {
            None => None,
            Some((tag, wt, p)) => if 1 <= tag <= 3 {
                match spec_read_message_frame(s, p, end, wt, budget) {
                    Some((a, b)) => if pos < b <= end {
                        let inner = (budget - 1) as nat;
                        let next = if tag == 1 {
                            let existing = match acc.body {
                                Some(response::SpecBody::Register(r)) => r,
                                _ => default_register_response(),
                            };
                            match spec_register_response_fields(s, a, b, existing, inner) {
                                Some(r) => Some(SpecResponse { body: Some(response::SpecBody::Register(r)) }),
                                None => None,
                            }
                        } else if tag == 2 {
                            let existing = match acc.body {
                                Some(response::SpecBody::Exec(e)) => e,
                                _ => SpecExecResponse { output: None },
                            };
                            match spec_exec_response_fields(s, a, b, existing, inner) {
                                Some(e) => Some(SpecResponse { body: Some(response::SpecBody::Exec(e)) }),
                                None => None,
                            }
                        } else {
                            let existing = match acc.body {
                                Some(response::SpecBody::Error(e)) => e,
                                _ => default_error_response(),
                            };
                            match spec_error_response_fields(s, a, b, existing, inner) {
                                Some(e) => Some(SpecResponse { body: Some(response::SpecBody::Error(e)) }),
                                None => None,
                            }
                        };
                        match next {
                            Some(n) => spec_response_fields(s, b, end, n, budget),
                            None => None,
                        }
                    } else {
                        None
                    },
                    None => None,
                }
            } else {
                match skip_then(s, pos, p, end, wt, tag, budget) {
                    Some(q) => spec_response_fields(s, q, end, acc, budget),
                    None => None,
                }
            },
        }
    }
}

/// The response that `bytes` encode, if they encode one.
pub open spec fn spec_decode_response(bytes: Seq<u8>) -> Option<SpecResponse> {
    spec_response_fields(bytes, 0, bytes.len() as int, SpecResponse { body: None }, RECURSION_LIMIT as nat)
}

/* Decoding reads back what encoding wrote */

/// What a response must satisfy for decoding to give it back: its limits,
/// a map on the wire, hold each key once.
pub open spec fn response_well_formed(m: SpecResponse) -> bool {
    match m.body {
        Some(response::SpecBody::Register(r)) => distinct_keys(r.limits),
        _ => true,
    }
}

proof fn lemma_find_key_absent(pairs: Seq<(Seq<char>, Seq<char>)>, k: Seq<char>, i: int)
    requires
        0 <= i,
        forall|j: int| i <= j < pairs.len() ==> pairs[j].0 != k,
    ensures
        find_key(pairs, k, i) == pairs.len(),
    decreases pairs.len() - i,
{
    if i < pairs.len() {
        lemma_find_key_absent(pairs, k, i + 1);
    }
}

pub proof fn lemma_version_range_roundtrip(s: Seq<u8>, pos: int, r: VersionRange, budget: nat)
    requires
        bytes_at(s, pos, spec_encode_version_range(r)),
        spec_encode_version_range(r).len() < 0x1_0000_0000_0000_0000,
    ensures
        spec_version_range_fields(s, pos, pos + spec_encode_version_range(r).len(), default_version_range(), budget)
            == Some(r),
{
    let f1 = spec_u32_field(1, r.min);
    let f2 = spec_u32_field(2, r.max);
    let end = pos + spec_encode_version_range(r).len();
    let p1 = pos + f1.len();
    let acc1 = VersionRange { min: r.min, max: 0 };
    lemma_bytes_at_split(s, pos, f1, f2);
    if r.min != 0 {
        lemma_u32_field_roundtrip(s, pos, end, 1, r.min);
    }
    assert(spec_version_range_fields(s, pos, end, default_version_range(), budget)
        == spec_version_range_fields(s, p1, end, acc1, budget));
    if r.max != 0 {
        lemma_u32_field_roundtrip(s, p1, end, 2, r.max);
        assert(spec_version_range_fields(s, p1, end, acc1, budget) == spec_version_range_fields(s, end, end, r, budget));
    }
}

proof fn lemma_capability_roundtrip(s: Seq<u8>, pos: int, c: SpecCapability, budget: nat)
    requires
        bytes_at(s, pos, spec_encode_capability(c)),
        spec_encode_capability(c).len() < 0x1_0000_0000_0000_0000,
    ensures
        spec_capability_fields(s, pos, pos + spec_encode_capability(c).len(), default_capability(), budget) == Some(c),
{
    let f1 = spec_string_field(1, c.name);
    let f2 = spec_u32_field(2, c.min_version);
    let f3 = spec_u32_field(3, c.max_version);
    let end = pos + spec_encode_capability(c).len();
    let p1 = pos + f1.len();
    let p2 = p1 + f2.len();
    let acc1 = SpecCapability { name: c.name, min_version: 0, max_version: 0 };
    let acc2 = SpecCapability { name: c.name, min_version: c.min_version, max_version: 0 };
    lemma_bytes_at_split(s, pos, f1 + f2, f3);
    lemma_bytes_at_split(s, pos, f1, f2);
    if c.name.len() != 0 {
        lemma_string_field_roundtrip(s, pos, end, 1, c.name);
    } else {
        assert(c.name =~= Seq::<char>::empty());
    }
    assert(spec_capability_fields(s, pos, end, default_capability(), budget) == spec_capability_fields(s, p1, end, acc1, budget));
    if c.min_version != 0 {
        lemma_u32_field_roundtrip(s, p1, end, 2, c.min_version);
    }
    assert(spec_capability_fields(s, p1, end, acc1, budget) == spec_capability_fields(s, p2, end, acc2, budget));
    if c.max_version != 0 {
        lemma_u32_field_roundtrip(s, p2, end, 3, c.max_version);
        assert(spec_capability_fields(s, p2, end, acc2, budget) == spec_capability_fields(s, end, end, c, budget));
    }
}

proof fn lemma_limit_roundtrip(s: Seq<u8>, pos: int, e: (Seq<char>, Seq<char>), budget: nat)
    requires
        bytes_at(s, pos, spec_encode_limit(e)),
        spec_encode_limit(e).len() < 0x1_0000_0000_0000_0000,
    ensures
        spec_limit_fields(s, pos, pos + spec_encode_limit(e).len(), (Seq::empty(), Seq::empty()), budget) == Some(e),
{
    let f1 = spec_string_field(1, e.0);
    let f2 = spec_string_field(2, e.1);
    let end = pos + spec_encode_limit(e).len();
    let p1 = pos + f1.len();
    let acc1 = (e.0, Seq::<char>::empty());
    lemma_bytes_at_split(s, pos, f1, f2);
    if e.0.len() != 0 {
        lemma_string_field_roundtrip(s, pos, end, 1, e.0);
    } else {
        assert(e.0 =~= Seq::<char>::empty());
    }
    assert(spec_limit_fields(s, pos, end, (Seq::empty(), Seq::empty()), budget) == spec_limit_fields(s, p1, end, acc1, budget));
    if e.1.len() != 0 {
        lemma_string_field_roundtrip(s, p1, end, 2, e.1);
        assert(spec_limit_fields(s, p1, end, acc1, budget) == spec_limit_fields(s, end, end, e, budget));
    } else {
        assert(e.1 =~= Seq::<char>::empty());
    }
}

proof fn lemma_capabilities_roundtrip(s: Seq<u8>, pos: int, end: int, acc: SpecRegisterResponse, cs: Seq<SpecCapability>, budget: nat)
    requires
        budget >= 1,
        bytes_at(s, pos, spec_encode_capabilities(cs)),
        spec_encode_capabilities(cs).len() < 0x1_0000_0000_0000_0000,
        pos + spec_encode_capabilities(cs).len() <= end <= s.len(),
    ensures
        spec_register_response_fields(s, pos, end, acc, budget) == spec_register_response_fields(
            s,
            pos + spec_encode_capabilities(cs).len(),
            end,
            SpecRegisterResponse { capabilities: acc.capabilities + cs, ..acc },
            budget,
        ),
    decreases cs.len(),
{
    if cs.len() == 0 {
        assert(acc.capabilities + cs =~= acc.capabilities);
    } else {
        let body = spec_encode_capability(cs[0]);
        let first = spec_frame(2, body);
        let rest = spec_encode_capabilities(cs.drop_first());
        lemma_bytes_at_split(s, pos, first, rest);
        lemma_message_field_roundtrip(s, pos, end, 2, body, budget);
        let b = pos + first.len();
        lemma_capability_roundtrip(s, b - body.len(), cs[0], (budget - 1) as nat);
        let acc1 = SpecRegisterResponse { capabilities: acc.capabilities.push(cs[0]), ..acc };
        assert(spec_register_response_fields(s, pos, end, acc, budget) == spec_register_response_fields(s, b, end, acc1, budget));
        lemma_capabilities_roundtrip(s, b, end, acc1, cs.drop_first(), budget);
        assert(acc.capabilities.push(cs[0]) + cs.drop_first() =~= acc.capabilities + cs);
    }
}

proof fn lemma_limits_roundtrip(s: Seq<u8>, pos: int, end: int, acc: SpecRegisterResponse, ls: Seq<(Seq<char>, Seq<char>)>, budget: nat)
    requires
        budget >= 1,
        distinct_keys(acc.limits + ls),
        bytes_at(s, pos, spec_encode_limits(ls)),
        spec_encode_limits(ls).len() < 0x1_0000_0000_0000_0000,
        pos + spec_encode_limits(ls).len() <= end <= s.len(),
    ensures
        spec_register_response_fields(s, pos, end, acc, budget) == spec_register_response_fields(
            s,
            pos + spec_encode_limits(ls).len(),
            end,
            SpecRegisterResponse { limits: acc.limits + ls, ..acc },
            budget,
        ),
    decreases ls.len(),
{
    if ls.len() == 0 {
        assert(acc.limits + ls =~= acc.limits);
    } else {
        let e = ls[0];
        let body = spec_encode_limit(e);
        let first = spec_frame(5, body);
        let rest = spec_encode_limits(ls.drop_first());
        lemma_bytes_at_split(s, pos, first, rest);
        lemma_message_field_roundtrip(s, pos, end, 5, body, budget);
        let b = pos + first.len();
        lemma_limit_roundtrip(s, b - body.len(), e, (budget - 1) as nat);
        let all = acc.limits + ls;
        assert(forall|j: int| 0 <= j < acc.limits.len() ==> acc.limits[j].0 != e.0) by {
            assert forall|j: int| 0 <= j < acc.limits.len() implies acc.limits[j].0 != e.0 by {
                assert(all[j] == acc.limits[j]);
                assert(all[acc.limits.len() as int] == e);
            }
        }
        lemma_find_key_absent(acc.limits, e.0, 0);
        let acc1 = SpecRegisterResponse { limits: acc.limits.push(e), ..acc };
        assert(insert_pair(acc.limits, e.0, e.1) == acc.limits.push(e));
        assert(spec_register_response_fields(s, pos, end, acc, budget) == spec_register_response_fields(s, b, end, acc1, budget));
        assert(acc.limits.push(e) + ls.drop_first() =~= acc.limits + ls);
        lemma_limits_roundtrip(s, b, end, acc1, ls.drop_first(), budget);
    }
}

proof fn lemma_build_step(s: Seq<u8>, pos: int, end: int, acc: SpecRegisterResponse, build: Seq<char>, budget: nat)
    requires
        acc.build.len() == 0,
        bytes_at(s, pos, spec_string_field(1, build)),
        spec_string_field(1, build).len() < 0x1_0000_0000_0000_0000,
        pos + spec_string_field(1, build).len() <= end <= s.len(),
    ensures
        spec_register_response_fields(s, pos, end, acc, budget) == spec_register_response_fields(
            s,
            pos + spec_string_field(1, build).len(),
            end,
            SpecRegisterResponse { build, ..acc },
            budget,
        ),
{
    if build.len() != 0 {
        lemma_string_field_roundtrip(s, pos, end, 1, build);
    } else {
        assert(build =~= acc.build);
        assert(SpecRegisterResponse { build, ..acc } == acc);
    }
}

proof fn lemma_range_step(s: Seq<u8>, pos: int, end: int, acc: SpecRegisterResponse, tag: nat, r: Option<VersionRange>, budget: nat)
    requires
        budget >= 1,
        tag == 3 || tag == 4,
        tag == 3 ==> acc.inbound is None,
        tag == 4 ==> acc.outbound is None,
        bytes_at(s, pos, spec_encode_optional_range(tag, r)),
        spec_encode_optional_range(tag, r).len() < 0x1_0000_0000_0000_0000,
        pos + spec_encode_optional_range(tag, r).len() <= end <= s.len(),
    ensures
        spec_register_response_fields(s, pos, end, acc, budget) == spec_register_response_fields(
            s,
            pos + spec_encode_optional_range(tag, r).len(),
            end,
            if tag == 3 { SpecRegisterResponse { inbound: r, ..acc } } else { SpecRegisterResponse { outbound: r, ..acc } },
            budget,
        ),
{
    match r {
        Some(x) => {
            let body = spec_encode_version_range(x);
            lemma_message_field_roundtrip(s, pos, end, tag, body, budget);
            let stop = pos + spec_encode_optional_range(tag, r).len();
            lemma_version_range_roundtrip(s, stop - body.len(), x, (budget - 1) as nat);
        },
        None => {
            assert(SpecRegisterResponse { inbound: r, ..acc } == acc || tag == 4);
            assert(SpecRegisterResponse { outbound: r, ..acc } == acc || tag == 3);
        },
    }
}

proof fn lemma_register_response_roundtrip(s: Seq<u8>, pos: int, m: SpecRegisterResponse, budget: nat)
    requires
        budget >= 1,
        distinct_keys(m.limits),
        bytes_at(s, pos, spec_encode_register_response(m)),
        spec_encode_register_response(m).len() < 0x1_0000_0000_0000_0000,
    ensures
        spec_register_response_fields(s, pos, pos + spec_encode_register_response(m).len(), default_register_response(), budget)
            == Some(m),
{
    let f1 = spec_string_field(1, m.build);
    let f2 = spec_encode_capabilities(m.capabilities);
    let f3 = spec_encode_optional_range(3, m.inbound);
    let f4 = spec_encode_optional_range(4, m.outbound);
    let f5 = spec_encode_limits(m.limits);
    let end = pos + spec_encode_register_response(m).len();
    let p1 = pos + f1.len();
    let p2 = p1 + f2.len();
    let p3 = p2 + f3.len();
    let p4 = p3 + f4.len();
    lemma_bytes_at_split(s, pos, f1 + f2 + f3 + f4, f5);
    lemma_bytes_at_split(s, pos, f1 + f2 + f3, f4);
    lemma_bytes_at_split(s, pos, f1 + f2, f3);
    lemma_bytes_at_split(s, pos, f1, f2);
    let acc0 = default_register_response();
    let acc1 = SpecRegisterResponse { build: m.build, ..acc0 };
    let acc2 = SpecRegisterResponse { capabilities: m.capabilities, ..acc1 };
    let acc3 = SpecRegisterResponse { inbound: m.inbound, ..acc2 };
    let acc4 = SpecRegisterResponse { outbound: m.outbound, ..acc3 };
    lemma_build_step(s, pos, end, acc0, m.build, budget);
    lemma_capabilities_roundtrip(s, p1, end, acc1, m.capabilities, budget);
    assert(acc1.capabilities + m.capabilities =~= m.capabilities);
    lemma_range_step(s, p2, end, acc2, 3, m.inbound, budget);
    lemma_range_step(s, p3, end, acc3, 4, m.outbound, budget);
    assert(acc4.limits + m.limits =~= m.limits);
    lemma_limits_roundtrip(s, p4, end, acc4, m.limits, budget);
    assert(SpecRegisterResponse { limits: acc4.limits + m.limits, ..acc4 } == m);
}

proof fn lemma_exec_response_roundtrip(s: Seq<u8>, pos: int, m: SpecExecResponse, budget: nat)
    requires
        budget >= 1,
        bytes_at(s, pos, spec_encode_exec_response(m)),
        spec_encode_exec_response(m).len() < 0x1_0000_0000_0000_0000,
    ensures
        spec_exec_response_fields(s, pos, pos + spec_encode_exec_response(m).len(), SpecExecResponse { output: None }, budget)
            == Some(m),
{
    let end = pos + spec_encode_exec_response(m).len();
    match m.output {
        Some(exec_response::SpecOutput::Ping(x)) => {
            let body = spec_encode_ping_response(x);
            lemma_message_field_roundtrip(s, pos, end, 1, body, budget);
            let a = end - body.len();
            if x.message.len() != 0 {
                lemma_string_field_roundtrip(s, a, end, 1, x.message);
                assert(spec_ping_response_fields(s, end, end, x, (budget - 1) as nat) == Some(x));
            } else {
                assert(x.message =~= Seq::<char>::empty());
            }
            assert(spec_ping_response_fields(s, a, end, default_ping_response(), (budget - 1) as nat) == Some(x));
            assert(spec_exec_response_fields(s, end, end, m, budget) == Some(m));
        },
        None => {},
    }
}

proof fn lemma_error_response_roundtrip(s: Seq<u8>, pos: int, m: SpecErrorResponse, budget: nat)
    requires
        bytes_at(s, pos, spec_encode_error_response(m)),
        spec_encode_error_response(m).len() < 0x1_0000_0000_0000_0000,
    ensures
        spec_error_response_fields(s, pos, pos + spec_encode_error_response(m).len(), default_error_response(), budget)
            == Some(m),
{
    let f1 = spec_i32_field(1, m.code);
    let f2 = spec_string_field(2, m.message);
    let end = pos + spec_encode_error_response(m).len();
    let p1 = pos + f1.len();
    let acc1 = SpecErrorResponse { code: m.code, message: Seq::empty() };
    lemma_bytes_at_split(s, pos, f1, f2);
    if m.code != 0 {
        lemma_i32_field_roundtrip(s, pos, end, 1, m.code);
    }
    assert(spec_error_response_fields(s, pos, end, default_error_response(), budget) == spec_error_response_fields(s, p1, end, acc1, budget));
    if m.message.len() != 0 {
        lemma_string_field_roundtrip(s, p1, end, 2, m.message);
        assert(spec_error_response_fields(s, p1, end, acc1, budget) == spec_error_response_fields(s, end, end, m, budget));
    } else {
        assert(m.message =~= Seq::<char>::empty());
    }
}

proof fn lemma_response_roundtrip(s: Seq<u8>, pos: int, m: SpecResponse, budget: nat)
    requires
        budget >= 2,
        response_well_formed(m),
        bytes_at(s, pos, spec_encode_response(m)),
        spec_encode_response(m).len() < 0x1_0000_0000_0000_0000,
    ensures
        spec_response_fields(s, pos, pos + spec_encode_response(m).len(), SpecResponse { body: None }, budget) == Some(m),
{
    let end = pos + spec_encode_response(m).len();
    match m.body {
        Some(response::SpecBody::Register(r)) => {
            let body = spec_encode_register_response(r);
            lemma_message_field_roundtrip(s, pos, end, 1, body, budget);
            lemma_register_response_roundtrip(s, end - body.len(), r, (budget - 1) as nat);
            assert(spec_response_fields(s, end, end, m, budget) == Some(m));
        },
        Some(response::SpecBody::Exec(e)) => {
            let body = spec_encode_exec_response(e);
            lemma_message_field_roundtrip(s, pos, end, 2, body, budget);
            lemma_exec_response_roundtrip(s, end - body.len(), e, (budget - 1) as nat);
            assert(spec_response_fields(s, end, end, m, budget) == Some(m));
        },
        Some(response::SpecBody::Error(e)) => {
            let body = spec_encode_error_response(e);
            lemma_message_field_roundtrip(s, pos, end, 3, body, budget);
            lemma_error_response_roundtrip(s, end - body.len(), e, (budget - 1) as nat);
            assert(spec_response_fields(s, end, end, m, budget) == Some(m));
        },
        None => {},
    }
}

/// Decoding the encoding of a response gives the response back, provided
/// its limits hold each key once (a map cannot hold a key twice).
pub proof fn lemma_decode_encode_response(m: SpecResponse)
    requires
        response_well_formed(m),
        spec_encode_response(m).len() < 0x1_0000_0000_0000_0000,
    ensures
        spec_decode_response(spec_encode_response(m)) == Some(m),
{
    let s = spec_encode_response(m);
    assert(s.subrange(0, s.len() as int) =~= s);
    lemma_response_roundtrip(s, 0, m, RECURSION_LIMIT as nat);
}

/* Encoding */

fn encode_version_range(r: VersionRange, out: &mut Vec<u8>)
    ensures
        final(out)@ == old(out)@ + spec_encode_version_range(r),
{
    write_u32_field(1, r.min, out);
    write_u32_field(2, r.max, out);
    assert(final(out)@ =~= old(out)@ + spec_encode_version_range(r));
}

fn encode_capability(c: &Capability, out: &mut Vec<u8>)
    ensures
        final(out)@ == old(out)@ + spec_encode_capability(c@),
{
    write_string_field(1, &c.name, out);
    write_u32_field(2, c.min_version, out);
    write_u32_field(3, c.max_version, out);
    assert(final(out)@ =~= old(out)@ + spec_encode_capability(c@));
}

proof fn lemma_encode_capabilities_push(cs: Seq<SpecCapability>, c: SpecCapability)
    ensures
        spec_encode_capabilities(cs.push(c)) == spec_encode_capabilities(cs) + spec_frame(2, spec_encode_capability(c)),
    decreases cs.len(),
{
    if cs.len() == 0 {
        assert(cs.push(c).drop_first() =~= Seq::<SpecCapability>::empty());
        assert(cs.push(c)[0] == c);
        assert(spec_encode_capabilities(cs.push(c).drop_first()) == Seq::<u8>::empty());
        assert(spec_encode_capabilities(cs) == Seq::<u8>::empty());
        assert(spec_encode_capabilities(cs.push(c)) =~= spec_encode_capabilities(cs) + spec_frame(2, spec_encode_capability(c)));
    } else {
        lemma_encode_capabilities_push(cs.drop_first(), c);
        assert(cs.push(c).drop_first() =~= cs.drop_first().push(c));
        assert(spec_encode_capabilities(cs.push(c)) =~= spec_encode_capabilities(cs) + spec_frame(2, spec_encode_capability(c)));
    }
}

proof fn lemma_encode_limits_push(ls: Seq<(Seq<char>, Seq<char>)>, e: (Seq<char>, Seq<char>))
    ensures
        spec_encode_limits(ls.push(e)) == spec_encode_limits(ls) + spec_frame(5, spec_encode_limit(e)),
    decreases ls.len(),
{
    if ls.len() == 0 {
        assert(ls.push(e).drop_first() =~= Seq::<(Seq<char>, Seq<char>)>::empty());
        assert(ls.push(e)[0] == e);
        assert(spec_encode_limits(ls.push(e).drop_first()) == Seq::<u8>::empty());
        assert(spec_encode_limits(ls) == Seq::<u8>::empty());
        assert(spec_encode_limits(ls.push(e)) =~= spec_encode_limits(ls) + spec_frame(5, spec_encode_limit(e)));
    } else {
        lemma_encode_limits_push(ls.drop_first(), e);
        assert(ls.push(e).drop_first() =~= ls.drop_first().push(e));
        assert(spec_encode_limits(ls.push(e)) =~= spec_encode_limits(ls) + spec_frame(5, spec_encode_limit(e)));
    }
}

#[verifier::rlimit(50)]
fn encode_register_response(m: &RegisterResponse, out: &mut Vec<u8>)
    ensures
        final(out)@ == old(out)@ + spec_encode_register_response(m@),
{
    write_string_field(1, &m.build, out);
    let ghost after_build = out@;
    let mut i: usize = 0;
    while i < m.capabilities.len()
        invariant
            i <= m.capabilities@.len(),
            out@ == after_build + spec_encode_capabilities(capabilities_view(m.capabilities@.take(i as int))),
        decreases m.capabilities@.len() - i,
    {
        let mut body: Vec<u8> = Vec::new();
        encode_capability(&m.capabilities[i], &mut body);
        write_frame(2, &mut body, out);
        proof {
            let prev = capabilities_view(m.capabilities@.take(i as int));
            assert(capabilities_view(m.capabilities@.take(i + 1)) =~= prev.push(m.capabilities@[i as int]@));
            lemma_encode_capabilities_push(prev, m.capabilities@[i as int]@);
        }
        i = i + 1;
    }
    assert(m.capabilities@.take(m.capabilities@.len() as int) =~= m.capabilities@);
    match m.inbound {
        Some(r) => {
            let mut body: Vec<u8> = Vec::new();
            encode_version_range(r, &mut body);
            write_frame(3, &mut body, out);
        },
        None => {},
    }
    match m.outbound {
        Some(r) => {
            let mut body: Vec<u8> = Vec::new();
            encode_version_range(r, &mut body);
            write_frame(4, &mut body, out);
        },
        None => {},
    }
    let ghost after_ranges = out@;
    let pairs = m.limits.pairs();
    let mut j: usize = 0;
    while j < pairs.len()
        invariant
            j <= pairs@.len(),
            out@ == after_ranges + spec_encode_limits(pairs_view(pairs@.take(j as int))),
        decreases pairs@.len() - j,
    {
        let mut body: Vec<u8> = Vec::new();
        write_string_field(1, &pairs[j].0, &mut body);
        write_string_field(2, &pairs[j].1, &mut body);
        write_frame(5, &mut body, out);
        proof {
            let prev = pairs_view(pairs@.take(j as int));
            let e = (pairs@[j as int].0@, pairs@[j as int].1@);
            assert(pairs_view(pairs@.take(j + 1)) =~= prev.push(e));
            lemma_encode_limits_push(prev, e);
        }
        j = j + 1;
    }
    assert(pairs@.take(pairs@.len() as int) =~= pairs@);
    assert(final(out)@ =~= old(out)@ + spec_encode_register_response(m@));
}

fn encode_exec_response(m: &ExecResponse, out: &mut Vec<u8>)
    ensures
        final(out)@ == old(out)@ + spec_encode_exec_response(m@),
{
    match &m.output {
        Some(exec_response::Output::Ping(p)) => {
            let mut body: Vec<u8> = Vec::new();
            write_string_field(1, &p.message, &mut body);
            write_frame(1, &mut body, out);
        },
        None => {},
    }
    assert(final(out)@ =~= old(out)@ + spec_encode_exec_response(m@));
}

fn encode_error_response(m: &ErrorResponse, out: &mut Vec<u8>)
    ensures
        final(out)@ == old(out)@ + spec_encode_error_response(m@),
{
    write_i32_field(1, m.code, out);
    write_string_field(2, &m.message, out);
    assert(final(out)@ =~= old(out)@ + spec_encode_error_response(m@));
}

impl Response {
    /// The bytes this response is sent as.
    pub fn encode_to_vec(&self) -> (r: Vec<u8>)
        ensures
            r@ == spec_encode_response(self@),
    {
        let mut out: Vec<u8> = Vec::new();
        match &self.body {
            Some(response::Body::Register(r)) => {
                let mut body: Vec<u8> = Vec::new();
                encode_register_response(r, &mut body);
                write_frame(1, &mut body, &mut out);
            },
            Some(response::Body::Exec(e)) => {
                let mut body: Vec<u8> = Vec::new();
                encode_exec_response(e, &mut body);
                write_frame(2, &mut body, &mut out);
            },
            Some(response::Body::Error(e)) => {
                let mut body: Vec<u8> = Vec::new();
                encode_error_response(e, &mut body);
                write_frame(3, &mut body, &mut out);
            },
            None => {},
        }
        assert(out@ =~= spec_encode_response(self@));
        out
    }
}

/* Decoding */

fn version_range_fields(s: &[u8], pos: usize, end: usize, acc: VersionRange, budget: u32) -> (r: Option<VersionRange>)
    requires
        pos <= end <= s@.len(),
    ensures
        match r {
            Some(m) => spec_version_range_fields(s@, pos as int, end as int, acc, budget as nat) == Some(m),
            None => spec_version_range_fields(s@, pos as int, end as int, acc, budget as nat) is None,
        },
{
    let mut i = pos;
    let mut cur = acc;
    while i < end
        invariant
            i <= end <= s@.len(),
            spec_version_range_fields(s@, pos as int, end as int, acc, budget as nat)
                == spec_version_range_fields(s@, i as int, end as int, cur, budget as nat),
        decreases end - i,
    {
        match read_key(s, i, end) {
            None => return None,
            Some((tag, wt, p)) => {
                proof { lemma_read_key_range(s@, i as int, end as int); }
                if tag == 1 || tag == 2 {
                    match read_u32(s, p, end, wt) {
                        Some((v, q)) => {
                            if i < q && q <= end {
                                if tag == 1 { cur = VersionRange { min: v, ..cur }; } else { cur = VersionRange { max: v, ..cur }; }
                                i = q;
                            } else {
                                return None;
                            }
                        },
                        None => return None,
                    }
                } else {
                    match skip_field(s, p, end, wt, tag, budget) {
                        Some(q) => {
                            if i < q && q <= end {
                                i = q;
                            } else {
                                return None;
                            }
                        },
                        None => return None,
                    }
                }
            },
        }
    }
    Some(cur)
}

fn capability_fields(s: &[u8], pos: usize, end: usize, acc: Capability, budget: u32) -> (r: Option<Capability>)
    requires
        pos <= end <= s@.len(),
    ensures
        match r {
            Some(m) => spec_capability_fields(s@, pos as int, end as int, acc@, budget as nat) == Some(m@),
            None => spec_capability_fields(s@, pos as int, end as int, acc@, budget as nat) is None,
        },
{
    let mut i = pos;
    let mut cur = acc;
    while i < end
        invariant
            i <= end <= s@.len(),
            spec_capability_fields(s@, pos as int, end as int, acc@, budget as nat)
                == spec_capability_fields(s@, i as int, end as int, cur@, budget as nat),
        decreases end - i,
    {
        match read_key(s, i, end) {
            None => return None,
            Some((tag, wt, p)) => {
                proof { lemma_read_key_range(s@, i as int, end as int); }
                if tag == 1 {
                    match read_string(s, p, end, wt) {
                        Some((v, q)) => {
                            if i < q && q <= end {
                                cur = Capability { name: v, ..cur };
                                i = q;
                            } else {
                                return None;
                            }
                        },
                        None => return None,
                    }
                } else if tag == 2 || tag == 3 {
                    match read_u32(s, p, end, wt) {
                        Some((v, q)) => {
                            if i < q && q <= end {
                                if tag == 2 { cur = Capability { min_version: v, ..cur }; } else { cur = Capability { max_version: v, ..cur }; }
                                i = q;
                            } else {
                                return None;
                            }
                        },
                        None => return None,
                    }
                } else {
                    match skip_field(s, p, end, wt, tag, budget) {
                        Some(q) => {
                            if i < q && q <= end {
                                i = q;
                            } else {
                                return None;
                            }
                        },
                        None => return None,
                    }
                }
            },
        }
    }
    Some(cur)
}

fn limit_fields(s: &[u8], pos: usize, end: usize, acc: (String, String), budget: u32) -> (r: Option<(String, String)>)
    requires
        pos <= end <= s@.len(),
    ensures
        match r {
            Some(m) => spec_limit_fields(s@, pos as int, end as int, (acc.0@, acc.1@), budget as nat) == Some((m.0@, m.1@)),
            None => spec_limit_fields(s@, pos as int, end as int, (acc.0@, acc.1@), budget as nat) is None,
        },
{
    let mut i = pos;
    let mut cur = acc;
    while i < end
        invariant
            i <= end <= s@.len(),
            spec_limit_fields(s@, pos as int, end as int, (acc.0@, acc.1@), budget as nat)
                == spec_limit_fields(s@, i as int, end as int, (cur.0@, cur.1@), budget as nat),
        decreases end - i,
    {
        match read_key(s, i, end) {
            None => return None,
            Some((tag, wt, p)) => {
                proof { lemma_read_key_range(s@, i as int, end as int); }
                if tag == 1 || tag == 2 {
                    match read_string(s, p, end, wt) {
                        Some((v, q)) => {
                            if i < q && q <= end {
                                if tag == 1 { cur = (v, cur.1); } else { cur = (cur.0, v); }
                                i = q;
                            } else {
                                return None;
                            }
                        },
                        None => return None,
                    }
                } else {
                    match skip_field(s, p, end, wt, tag, budget) {
                        Some(q) => {
                            if i < q && q <= end {
                                i = q;
                            } else {
                                return None;
                            }
                        },
                        None => return None,
                    }
                }
            },
        }
    }
    Some(cur)
}

fn ping_response_fields(s: &[u8], pos: usize, end: usize, acc: PingResponse, budget: u32) -> (r: Option<PingResponse>)
    requires
        pos <= end <= s@.len(),
    ensures
        match r {
            Some(m) => spec_ping_response_fields(s@, pos as int, end as int, acc@, budget as nat) == Some(m@),
            None => spec_ping_response_fields(s@, pos as int, end as int, acc@, budget as nat) is None,
        },
{
    let mut i = pos;
    let mut cur = acc;
    while i < end
        invariant
            i <= end <= s@.len(),
            spec_ping_response_fields(s@, pos as int, end as int, acc@, budget as nat)
                == spec_ping_response_fields(s@, i as int, end as int, cur@, budget as nat),
        decreases end - i,
    {
        match read_key(s, i, end) {
            None => return None,
            Some((tag, wt, p)) => {
                proof { lemma_read_key_range(s@, i as int, end as int); }
                if tag == 1 {
                    match read_string(s, p, end, wt) {
                        Some((v, q)) => {
                            if i < q && q <= end {
                                cur = PingResponse { message: v };
                                i = q;
                            } else {
                                return None;
                            }
                        },
                        None => return None,
                    }
                } else {
                    match skip_field(s, p, end, wt, tag, budget) {
                        Some(q) => {
                            if i < q && q <= end {
                                i = q;
                            } else {
                                return None;
                            }
                        },
                        None => return None,
                    }
                }
            },
        }
    }
    Some(cur)
}

fn exec_response_fields(s: &[u8], pos: usize, end: usize, acc: ExecResponse, budget: u32) -> (r: Option<ExecResponse>)
    requires
        pos <= end <= s@.len(),
    ensures
        match r {
            Some(m) => spec_exec_response_fields(s@, pos as int, end as int, acc@, budget as nat) == Some(m@),
            None => spec_exec_response_fields(s@, pos as int, end as int, acc@, budget as nat) is None,
        },
{
    let mut i = pos;
    let mut cur = acc;
    while i < end
        invariant
            i <= end <= s@.len(),
            spec_exec_response_fields(s@, pos as int, end as int, acc@, budget as nat)
                == spec_exec_response_fields(s@, i as int, end as int, cur@, budget as nat),
        decreases end - i,
    {
        match read_key(s, i, end) {
            None => return None,
            Some((tag, wt, p)) => {
                proof { lemma_read_key_range(s@, i as int, end as int); }
                if tag == 1 {
                    match read_message_frame(s, p, end, wt, budget) {
                        Some((a, b)) => {
                            proof { lemma_read_frame_range(s@, p as int, end as int); }
                            if !(i < b && b <= end) {
                                return None;
                            }
                            let existing = match cur.output {
                                Some(exec_response::Output::Ping(x)) => x,
                                None => PingResponse { message: String::new() },
                            };
                            match ping_response_fields(s, a, b, existing, budget - 1) {
                                Some(x) => {
                                    cur = ExecResponse { output: Some(exec_response::Output::Ping(x)) };
                                    i = b;
                                },
                                None => return None,
                            }
                        },
                        None => return None,
                    }
                } else {
                    match skip_field(s, p, end, wt, tag, budget) {
                        Some(q) => {
                            if i < q && q <= end {
                                i = q;
                            } else {
                                return None;
                            }
                        },
                        None => return None,
                    }
                }
            },
        }
    }
    Some(cur)
}

fn error_response_fields(s: &[u8], pos: usize, end: usize, acc: ErrorResponse, budget: u32) -> (r: Option<ErrorResponse>)
    requires
        pos <= end <= s@.len(),
    ensures
        match r {
            Some(m) => spec_error_response_fields(s@, pos as int, end as int, acc@, budget as nat) == Some(m@),
            None => spec_error_response_fields(s@, pos as int, end as int, acc@, budget as nat) is None,
        },
{
    let mut i = pos;
    let mut cur = acc;
    while i < end
        invariant
            i <= end <= s@.len(),
            spec_error_response_fields(s@, pos as int, end as int, acc@, budget as nat)
                == spec_error_response_fields(s@, i as int, end as int, cur@, budget as nat),
        decreases end - i,
    {
        match read_key(s, i, end) {
            None => return None,
            Some((tag, wt, p)) => {
                proof { lemma_read_key_range(s@, i as int, end as int); }
                if tag == 1 {
                    match read_i32(s, p, end, wt) {
                        Some((v, q)) => {
                            if i < q && q <= end {
                                cur = ErrorResponse { code: v, ..cur };
                                i = q;
                            } else {
                                return None;
                            }
                        },
                        None => return None,
                    }
                } else if tag == 2 {
                    match read_string(s, p, end, wt) {
                        Some((v, q)) => {
                            if i < q && q <= end {
                                cur = ErrorResponse { message: v, ..cur };
                                i = q;
                            } else {
                                return None;
                            }
                        },
                        None => return None,
                    }
                } else {
                    match skip_field(s, p, end, wt, tag, budget) {
                        Some(q) => {
                            if i < q && q <= end {
                                i = q;
                            } else {
                                return None;
                            }
                        },
                        None => return None,
                    }
                }
            },
        }
    }
    Some(cur)
}

fn register_response_fields(s: &[u8], pos: usize, end: usize, acc: RegisterResponse, budget: u32) -> (r: Option<RegisterResponse>)
    requires
        pos <= end <= s@.len(),
    ensures
        match r {
            Some(m) => spec_register_response_fields(s@, pos as int, end as int, acc@, budget as nat) == Some(m@),
            None => spec_register_response_fields(s@, pos as int, end as int, acc@, budget as nat) is None,
        },
{
    let mut i = pos;
    let mut cur = acc;
    while i < end
        invariant
            i <= end <= s@.len(),
            spec_register_response_fields(s@, pos as int, end as int, acc@, budget as nat)
                == spec_register_response_fields(s@, i as int, end as int, cur@, budget as nat),
        decreases end - i,
    {
        match read_key(s, i, end) {
            None => return None,
            Some((tag, wt, p)) => {
                proof { lemma_read_key_range(s@, i as int, end as int); }
                if tag == 1 {
                    match read_string(s, p, end, wt) {
                        Some((v, q)) => {
                            if i < q && q <= end {
                                cur = RegisterResponse { build: v, ..cur };
                                i = q;
                            } else {
                                return None;
                            }
                        },
                        None => return None,
                    }
                } else if tag == 2 {
                    match read_message_frame(s, p, end, wt, budget) {
                        Some((a, b)) => {
                            proof { lemma_read_frame_range(s@, p as int, end as int); }
                            if !(i < b && b <= end) {
                                return None;
                            }
                            let fresh = Capability { name: String::new(), min_version: 0, max_version: 0 };
                            match capability_fields(s, a, b, fresh, budget - 1) {
                                Some(c) => {
                                    let ghost before = cur.capabilities@;
                                    cur.capabilities.push(c);
                                    assert(capabilities_view(cur.capabilities@) =~= capabilities_view(before).push(c@));
                                    i = b;
                                },
                                None => return None,
                            }
                        },
                        None => return None,
                    }
                } else if tag == 3 || tag == 4 {
                    match read_message_frame(s, p, end, wt, budget) {
                        Some((a, b)) => {
                            proof { lemma_read_frame_range(s@, p as int, end as int); }
                            if !(i < b && b <= end) {
                                return None;
                            }
                            let existing = if tag == 3 { cur.inbound } else { cur.outbound };
                            let start = match existing {
                                Some(r) => r,
                                None => VersionRange { min: 0, max: 0 },
                            };
                            match version_range_fields(s, a, b, start, budget - 1) {
                                Some(r) => {
                                    if tag == 3 {
                                        cur.inbound = Some(r);
                                    } else {
                                        cur.outbound = Some(r);
                                    }
                                    i = b;
                                },
                                None => return None,
                            }
                        },
                        None => return None,
                    }
                } else if tag == 5 {
                    if budget == 0 {
                        return None;
                    }
                    match read_frame(s, p, end) {
                        Some((a, b)) => {
                            proof { lemma_read_frame_range(s@, p as int, end as int); }
                            if !(i < b && b <= end) {
                                return None;
                            }
                            match limit_fields(s, a, b, (String::new(), String::new()), budget - 1) {
                                Some(e) => {
                                    cur.limits.insert(e.0, e.1);
                                    i = b;
                                },
                                None => return None,
                            }
                        },
                        None => return None,
                    }
                } else {
                    match skip_field(s, p, end, wt, tag, budget) {
                        Some(q) => {
                            if i < q && q <= end {
                                i = q;
                            } else {
                                return None;
                            }
                        },
                        None => return None,
                    }
                }
            },
        }
    }
    Some(cur)
}

fn response_fields(s: &[u8], pos: usize, end: usize, acc: Response, budget: u32) -> (r: Option<Response>)
    requires
        pos <= end <= s@.len(),
    ensures
        match r {
            Some(m) => spec_response_fields(s@, pos as int, end as int, acc@, budget as nat) == Some(m@),
            None => spec_response_fields(s@, pos as int, end as int, acc@, budget as nat) is None,
        },
{
    let mut i = pos;
    let mut cur = acc;
    while i < end
        invariant
            i <= end <= s@.len(),
            spec_response_fields(s@, pos as int, end as int, acc@, budget as nat)
                == spec_response_fields(s@, i as int, end as int, cur@, budget as nat),
        decreases end - i,
    {
        match read_key(s, i, end) {
            None => return None,
            Some((tag, wt, p)) => {
                proof { lemma_read_key_range(s@, i as int, end as int); }
                if 1 <= tag && tag <= 3 {
                    match read_message_frame(s, p, end, wt, budget) {
                        Some((a, b)) => {
                            proof { lemma_read_frame_range(s@, p as int, end as int); }
                            if !(i < b && b <= end) {
                                return None;
                            }
                            if tag == 1 {
                                let existing = match cur.body {
                                    Some(response::Body::Register(r)) => r,
                                    _ => RegisterResponse {
                                        build: String::new(),
                                        capabilities: Vec::new(),
                                        inbound: None,
                                        outbound: None,
                                        limits: Limits::new(),
                                    },
                                };
                                proof {
                                    assert(capabilities_view(Seq::<Capability>::empty()) =~= Seq::<SpecCapability>::empty());
                                }
                                match register_response_fields(s, a, b, existing, budget - 1) {
                                    Some(r) => {
                                        cur = Response { body: Some(response::Body::Register(r)) };
                                    },
                                    None => return None,
                                }
                            } else if tag == 2 {
                                let existing = match cur.body {
                                    Some(response::Body::Exec(e)) => e,
                                    _ => ExecResponse { output: None },
                                };
                                match exec_response_fields(s, a, b, existing, budget - 1) {
                                    Some(e) => {
                                        cur = Response { body: Some(response::Body::Exec(e)) };
                                    },
                                    None => return None,
                                }
                            } else {
                                let existing = match cur.body {
                                    Some(response::Body::Error(e)) => e,
                                    _ => ErrorResponse { code: 0, message: String::new() },
                                };
                                match error_response_fields(s, a, b, existing, budget - 1) {
                                    Some(e) => {
                                        cur = Response { body: Some(response::Body::Error(e)) };
                                    },
                                    None => return None,
                                }
                            }
                            i = b;
                        },
                        None => return None,
                    }
                } else {
                    match skip_field(s, p, end, wt, tag, budget) {
                        Some(q) => {
                            if i < q && q <= end {
                                i = q;
                            } else {
                                return None;
                            }
                        },
                        None => return None,
                    }
                }
            },
        }
    }
    Some(cur)
}

impl Response {
    /// The response that `bytes` encode.
    pub fn decode(bytes: &[u8]) -> (r: Result<Response, MalformedMessage>)
        ensures
            match r {
                Ok(m) => spec_decode_response(bytes@) == Some(m@),
                Err(_) => spec_decode_response(bytes@) is None,
            },
    {
        match response_fields(bytes, 0, bytes.len(), Response { body: None }, RECURSION_LIMIT) {
            Some(m) => Ok(m),
            None => Err(MalformedMessage {}),
        }
    }
}

} // verus!
