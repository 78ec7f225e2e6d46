//! The wire form of the messages, byte by byte: which key bytes carry which
//! field, as the protocol's message definitions number them.

use vstd::prelude::*;
use vstd::utf8::encode_utf8;
use crate::response_codec::{
    default_version_range, lemma_version_range_roundtrip, spec_encode_error_response, spec_encode_optional_range,
    spec_encode_response, spec_encode_version_range, spec_version_range_fields,
};
use crate::request_codec::{spec_encode_exec_request, spec_encode_request};
use crate::v1::{request, response, ExecRequest, SpecErrorResponse, SpecRequest, SpecResponse, VersionRange};
use crate::wire::{i32_wire, lemma_varint_len, spec_string_field, spec_varint};

verus! {

/// A version range travels as protobuf writes `VersionRange { uint32 min = 1;
/// uint32 max = 2; }`: the lower bound under key byte `0x08`, then the upper
/// bound under key byte `0x10`, each as a varint, a zero bound left out.
pub proof fn lemma_version_range_wire(r: VersionRange)
    ensures
        spec_encode_version_range(r) == (if r.min == 0 {
            Seq::<u8>::empty()
        } else {
            seq![0x08u8] + spec_varint(r.min as nat)
        }) + (if r.max == 0 {
            Seq::<u8>::empty()
        } else {
            seq![0x10u8] + spec_varint(r.max as nat)
        }),
{
    assert(spec_varint(8) =~= seq![0x08u8]);
    assert(spec_varint(16) =~= seq![0x10u8]);
}

/// Bytes in that form read back as the range: the varint under key `0x08` is
/// the lower bound and the one under key `0x10` the upper bound.
pub proof fn lemma_version_range_read(min: u32, max: u32, budget: nat)
    ensures
        ({
            let s = (if min == 0 { Seq::<u8>::empty() } else { seq![0x08u8] + spec_varint(min as nat) }) + (if max
                == 0 {
                Seq::<u8>::empty()
            } else {
                seq![0x10u8] + spec_varint(max as nat)
            });
            spec_version_range_fields(s, 0, s.len() as int, default_version_range(), budget) == Some(
                VersionRange { min, max },
            )
        }),
{
    let r = VersionRange { min, max };
    lemma_version_range_wire(r);
    let s = spec_encode_version_range(r);
    lemma_varint_len(min as nat);
    lemma_varint_len(max as nat);
    assert(s.subrange(0, s.len() as int) =~= s);
    lemma_version_range_roundtrip(s, 0, r, budget);
}

/// The ranges of a register response travel as fields 3 (inbound, key byte
/// `0x1a`) and 4 (outbound, key byte `0x22`), each length-delimited.
pub proof fn lemma_register_ranges_wire(r: VersionRange)
    ensures
        spec_encode_optional_range(3, Some(r)) == seq![0x1au8] + spec_varint(spec_encode_version_range(r).len())
            + spec_encode_version_range(r),
        spec_encode_optional_range(4, Some(r)) == seq![0x22u8] + spec_varint(spec_encode_version_range(r).len())
            + spec_encode_version_range(r),
{
    assert(spec_varint(26) =~= seq![0x1au8]);
    assert(spec_varint(34) =~= seq![0x22u8]);
}

/// A refusal travels as field 3 of the response (key byte `0x1a`), its code
/// as a varint under key byte `0x08` (left out when zero) and its message
/// under key byte `0x12`.
pub proof fn lemma_refusal_wire(e: SpecErrorResponse)
    ensures
        spec_encode_response(SpecResponse { body: Some(response::SpecBody::Error(e)) }) == seq![0x1au8] + spec_varint(
            spec_encode_error_response(e).len(),
        ) + spec_encode_error_response(e),
        spec_encode_error_response(e) == (if e.code == 0 {
            Seq::<u8>::empty()
        } else {
            seq![0x08u8] + spec_varint(i32_wire(e.code))
        }) + spec_string_field(2, e.message),
        e.message.len() > 0 ==> spec_string_field(2, e.message) == seq![0x12u8] + spec_varint(
            encode_utf8(e.message).len(),
        ) + encode_utf8(e.message),
{
    assert(spec_varint(26) =~= seq![0x1au8]);
    assert(spec_varint(8) =~= seq![0x08u8]);
    assert(spec_varint(18) =~= seq![0x12u8]);
}

/// An exec request travels as field 2 of the request (key byte `0x12`):
/// its negotiated version under key byte `0x08` (left out when zero), then a
/// ping as the empty message under key byte `0x12`.
pub proof fn lemma_exec_request_wire(exec: ExecRequest)
    ensures
        spec_encode_request(SpecRequest { body: Some(request::SpecBody::Exec(exec)) }) == seq![0x12u8] + spec_varint(
            spec_encode_exec_request(exec).len(),
        ) + spec_encode_exec_request(exec),
        spec_encode_exec_request(exec) == (if exec.negotiated_version == 0 {
            Seq::<u8>::empty()
        } else {
            seq![0x08u8] + spec_varint(exec.negotiated_version as nat)
        }) + (if exec.call is Some {
            seq![0x12u8, 0x00u8]
        } else {
            Seq::<u8>::empty()
        }),
{
    assert(spec_varint(18) =~= seq![0x12u8]);
    assert(spec_varint(8) =~= seq![0x08u8]);
    assert(spec_varint(0) =~= seq![0x00u8]);
}

} // verus!
