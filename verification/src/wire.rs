//! Protobuf wire primitives: base-128 varints, field keys, length-delimited
//! frames and the skipping of fields a message does not know.

use vstd::prelude::*;
use vstd::slice::*;
use vstd::string::*;
use vstd::utf8::*;

verus! {

/// `s[pos .. pos + t.len()]` is exactly `t`.
pub open spec fn bytes_at(s: Seq<u8>, pos: int, t: Seq<u8>) -> bool {
    &&& 0 <= pos
    &&& pos + t.len() <= s.len()
    &&& s.subrange(pos, pos + t.len()) == t
}

/// The base-128 encoding of `v`: seven bits per byte, least significant
/// group first, the high bit set on every byte but the last.
pub open spec fn spec_varint(v: nat) -> Seq<u8>
    decreases v,
{
    if v < 128 {
        seq![v as u8]
    } else {
        seq![(v % 128 + 128) as u8] + spec_varint(v / 128)
    }
}

/// Exclusive upper bound of the value that the digits from digit index `d`
/// on may carry (two to the power `64 - 7 d`).
pub open spec fn varint_bound(d: nat) -> int
    decreases 9 - d,
{
    if d >= 9 {
        2
    } else {
        128 * varint_bound(d + 1)
    }
}

/// Decodes the varint digits of index `d` and on, starting at `pos` and
/// reading no byte at or past `end`. A varint has at most ten bytes, and the
/// tenth may only hold the bit 63. Yields the value and the position after it.
pub open spec fn spec_varint_digits(s: Seq<u8>, pos: int, end: int, d: nat) -> Option<(int, int)>
    decreases 10 - d,
{
    if d >= 10 || pos < 0 || pos >= end || end > s.len() {
        None
    } else if s[pos] < 128 {
        if d == 9 && s[pos] >= 2 {
            None
        } else {
            Some((s[pos] as int, pos + 1))
        }
    } else {
        match spec_varint_digits(s, pos + 1, end, d + 1) {
            Some((v, p)) => Some(((s[pos] - 128) + 128 * v, p)),
            None => None,
        }
    }
}

/// Decodes one varint at `pos` within `s[.. end]`.
pub open spec fn spec_read_varint(s: Seq<u8>, pos: int, end: int) -> Option<(int, int)> {
    spec_varint_digits(s, pos, end, 0)
}

pub proof fn lemma_varint_bound_values()
    ensures
        varint_bound(0) == 0x1_0000_0000_0000_0000,
        varint_bound(1) == 0x200_0000_0000_0000,
        varint_bound(8) == 256,
        varint_bound(9) == 2,
{
    reveal_with_fuel(varint_bound, 10);
}

proof fn lemma_varint_bound_monotone(d: nat)
    requires
        d <= 9,
    ensures
        2 <= varint_bound(d) <= varint_bound(0),
        d < 9 ==> varint_bound(d) == 128 * varint_bound(d + 1),
    decreases d,
{
    lemma_varint_bound_values();
    if d > 0 {
        lemma_varint_bound_monotone((d - 1) as nat);
    }
}

/// What a successful decode yields: a value below the bound of its first
/// digit, and a position past `pos` and no further than `end`.
pub proof fn lemma_varint_digits_range(s: Seq<u8>, pos: int, end: int, d: nat)
    requires
        d <= 9,
        spec_varint_digits(s, pos, end, d) is Some,
    ensures
        ({
            let (v, p) = spec_varint_digits(s, pos, end, d).unwrap();
            &&& 0 <= v < varint_bound(d)
            &&& pos < p <= end
            &&& p <= pos + 10 - d
        }),
    decreases 9 - d,
{
    lemma_varint_bound_monotone(d);
    if s[pos] >= 128 && d < 9 {
        lemma_varint_digits_range(s, pos + 1, end, d + 1);
    }
}

pub proof fn lemma_read_varint_range(s: Seq<u8>, pos: int, end: int)
    requires
        spec_read_varint(s, pos, end) is Some,
    ensures
        ({
            let (v, p) = spec_read_varint(s, pos, end).unwrap();
            &&& 0 <= v < 0x1_0000_0000_0000_0000
            &&& pos < p <= end
            &&& p <= pos + 10
        }),
{
    lemma_varint_digits_range(s, pos, end, 0);
    lemma_varint_bound_values();
}

/// The encoding has between one and ten bytes.
pub proof fn lemma_varint_len(v: nat)
    requires
        v < 0x1_0000_0000_0000_0000,
    ensures
        1 <= spec_varint(v).len() <= 10,
{
    lemma_varint_bound_values();
    lemma_varint_len_below(v, 0);
}

proof fn lemma_varint_len_below(v: nat, d: nat)
    requires
        d <= 9,
        v < varint_bound(d),
    ensures
        1 <= spec_varint(v).len() <= 10 - d,
    decreases v,
{
    lemma_varint_bound_monotone(d);
    if v >= 128 {
        assert(d < 9);
        assert(v / 128 < varint_bound(d + 1));
        lemma_varint_len_below(v / 128, d + 1);
    }
}

/// Decoding reads back what encoding wrote, whatever follows it.
pub proof fn lemma_varint_digits_roundtrip(s: Seq<u8>, pos: int, end: int, v: nat, d: nat)
    requires
        d <= 9,
        v < varint_bound(d),
        bytes_at(s, pos, spec_varint(v)),
        pos + spec_varint(v).len() <= end <= s.len(),
    ensures
        spec_varint_digits(s, pos, end, d) == Some((v as int, pos + spec_varint(v).len())),
    decreases v,
{
    lemma_varint_bound_monotone(d);
    let e = spec_varint(v);
    assert(s[pos] == e[0]) by {
        assert(s.subrange(pos, pos + e.len())[0] == s[pos]);
    }
    if v >= 128 {
        let rest = spec_varint(v / 128);
        assert(e == seq![(v % 128 + 128) as u8] + rest);
        assert(d < 9);
        assert(v / 128 < varint_bound(d + 1));
        assert(bytes_at(s, pos + 1, rest)) by {
            assert(s.subrange(pos + 1, pos + 1 + rest.len()) =~= e.subrange(1, e.len() as int));
            assert(e.subrange(1, e.len() as int) =~= rest);
        }
        lemma_varint_digits_roundtrip(s, pos + 1, end, v / 128, d + 1);
    }
}

pub proof fn lemma_read_varint_roundtrip(s: Seq<u8>, pos: int, end: int, v: nat)
    requires
        v < 0x1_0000_0000_0000_0000,
        bytes_at(s, pos, spec_varint(v)),
        pos + spec_varint(v).len() <= end <= s.len(),
    ensures
        spec_read_varint(s, pos, end) == Some((v as int, pos + spec_varint(v).len())),
{
    lemma_varint_bound_values();
    lemma_varint_digits_roundtrip(s, pos, end, v, 0);
}

fn read_varint_digits(s: &[u8], pos: usize, end: usize, d: usize) -> (r: Option<(u64, usize)>)
    requires
        end <= s@.len(),
        d <= 10,
    ensures
        match r {
            Some((v, p)) => spec_varint_digits(s@, pos as int, end as int, d as nat) == Some((v as int, p as int)),
            None => spec_varint_digits(s@, pos as int, end as int, d as nat) is None,
        },
    decreases 10 - d,
{
    if d >= 10 || pos >= end {
        return None;
    }
    let b = s[pos];
    if b < 128 {
        if d == 9 && b >= 2 {
            None
        } else {
            Some((b as u64, pos + 1))
        }
    } else {
        match read_varint_digits(s, pos + 1, end, d + 1) {
            Some((v, p)) => {
                proof {
                    lemma_varint_digits_range(s@, pos as int + 1, end as int, (d + 1) as nat);
                    lemma_varint_bound_monotone(d as nat);
                    lemma_varint_bound_monotone((d + 1) as nat);
                    lemma_varint_bound_values();
                }
                Some(((b - 128) as u64 + 128 * v, p))
            },
            None => None,
        }
    }
}

/// Reads one varint at `pos`, never past `end`.
pub fn read_varint(s: &[u8], pos: usize, end: usize) -> (r: Option<(u64, usize)>)
    requires
        end <= s@.len(),
    ensures
        match r {
            Some((v, p)) => spec_read_varint(s@, pos as int, end as int) == Some((v as int, p as int)),
            None => spec_read_varint(s@, pos as int, end as int) is None,
        },
{
    read_varint_digits(s, pos, end, 0)
}

/// Appends the encoding of `v`.
pub fn write_varint(v: u64, out: &mut Vec<u8>)
    ensures
        final(out)@ == old(out)@ + spec_varint(v as nat),
{
    let mut x = v;
    while x >= 128
        invariant
            out@ + spec_varint(x as nat) == old(out)@ + spec_varint(v as nat),
        decreases x,
    {
        let ghost before = out@;
        out.push((x % 128 + 128) as u8);
        assert(spec_varint(x as nat) == seq![(x % 128 + 128) as u8] + spec_varint((x / 128) as nat));
        assert(before + spec_varint(x as nat) =~= out@ + spec_varint((x / 128) as nat));
        x = x / 128;
    }
    out.push(x as u8);
    assert(out@ =~= old(out)@ + spec_varint(v as nat));
}

/// Wire type of a varint field.
pub const WIRE_VARINT: u8 = 0;
/// Wire type of an eight-byte field.
pub const WIRE_FIXED64: u8 = 1;
/// Wire type of a length-delimited field.
pub const WIRE_LEN: u8 = 2;
/// Wire type that opens a group.
pub const WIRE_START_GROUP: u8 = 3;
/// Wire type that closes a group.
pub const WIRE_END_GROUP: u8 = 4;
/// Wire type of a four-byte field.
pub const WIRE_FIXED32: u8 = 5;

/// The key of field `tag` with wire type `wt`.
pub open spec fn spec_key(tag: nat, wt: nat) -> Seq<u8> {
    spec_varint(tag * 8 + wt)
}

/// Decodes a field key: a varint no larger than `u32::MAX` whose low three
/// bits name one of the six wire types and whose field number is not zero.
pub open spec fn spec_read_key(s: Seq<u8>, pos: int, end: int) -> Option<(u32, u8, int)> {
    match spec_read_varint(s, pos, end) {
        Some((k, p)) => if k > 0xffff_ffff || k % 8 > 5 || k / 8 == 0 {
            None
        } else {
            Some(((k / 8) as u32, (k % 8) as u8, p))
        },
        None => None,
    }
}

/// Decodes a length prefix at `pos` and returns the bounds of the payload it
/// announces, which must end no later than `end`.
pub open spec fn spec_read_frame(s: Seq<u8>, pos: int, end: int) -> Option<(int, int)> {
    match spec_read_varint(s, pos, end) {
        Some((len, p)) => if len <= end - p {
            Some((p, p + len))
        } else {
            None
        },
        None => None,
    }
}

/// Skips the value of an unknown field whose key has just been read.
/// `budget` is the remaining nesting allowance: none left is an error, and
/// each group entered costs one.
pub open spec fn spec_skip_field(s: Seq<u8>, pos: int, end: int, wt: u8, tag: u32, budget: nat) -> Option<int>
    decreases end - pos, 1nat,
{
    if budget == 0 || pos < 0 || pos > end || end > s.len() {
        None
    } else if wt == WIRE_VARINT {
        match spec_read_varint(s, pos, end) {
            Some((_, p)) => Some(p),
            None => None,
        }
    } else if wt == WIRE_FIXED64 {
        if pos + 8 <= end { Some(pos + 8) } else { None }
    } else if wt == WIRE_LEN {
        match spec_read_frame(s, pos, end) {
            Some((_, q)) => Some(q),
            None => None,
        }
    } else if wt == WIRE_START_GROUP {
        spec_skip_group(s, pos, end, tag, (budget - 1) as nat)
    } else if wt == WIRE_FIXED32 {
        if pos + 4 <= end { Some(pos + 4) } else { None }
    } else {
        None
    }
}

/// Skips the fields of a group up to and including the end-group key that
/// carries the group's own field number.
pub open spec fn spec_skip_group(s: Seq<u8>, pos: int, end: int, tag: u32, budget: nat) -> Option<int>
    decreases end - pos, 0nat,
{
    match spec_read_key(s, pos, end) {
        None => None,
        Some((t, w, p)) => if w == WIRE_END_GROUP {
            if t == tag { Some(p) } else { None }
        } else if p <= pos || p > end {
            None
        } else {
            match spec_skip_field(s, p, end, w, t, budget) {
                Some(q) => if pos < q <= end {
                    spec_skip_group(s, q, end, tag, budget)
                } else {
                    None
                },
                None => None,
            }
        },
    }
}

pub proof fn lemma_read_key_range(s: Seq<u8>, pos: int, end: int)
    requires
        spec_read_key(s, pos, end) is Some,
    ensures
        ({
            let (t, w, p) = spec_read_key(s, pos, end).unwrap();
            &&& pos < p <= end
            &&& t >= 1
            &&& w <= 5
        }),
{
    lemma_read_varint_range(s, pos, end);
}

pub proof fn lemma_read_frame_range(s: Seq<u8>, pos: int, end: int)
    requires
        spec_read_frame(s, pos, end) is Some,
    ensures
        ({
            let (a, b) = spec_read_frame(s, pos, end).unwrap();
            &&& pos < a <= b <= end
        }),
{
    lemma_read_varint_range(s, pos, end);
}

/// A skipped field always consumes input and stays within its frame.
pub proof fn lemma_skip_field_range(s: Seq<u8>, pos: int, end: int, wt: u8, tag: u32, budget: nat)
    requires
        spec_skip_field(s, pos, end, wt, tag, budget) is Some,
    ensures
        pos < spec_skip_field(s, pos, end, wt, tag, budget).unwrap() <= end,
    decreases end - pos, 1nat,
{
    if wt == WIRE_VARINT {
        lemma_read_varint_range(s, pos, end);
    } else if wt == WIRE_LEN {
        lemma_read_frame_range(s, pos, end);
    } else if wt == WIRE_START_GROUP {
        lemma_skip_group_range(s, pos, end, tag, (budget - 1) as nat);
    }
}

pub proof fn lemma_skip_group_range(s: Seq<u8>, pos: int, end: int, tag: u32, budget: nat)
    requires
        spec_skip_group(s, pos, end, tag, budget) is Some,
    ensures
        pos < spec_skip_group(s, pos, end, tag, budget).unwrap() <= end,
    decreases end - pos, 0nat,
{
    lemma_read_key_range(s, pos, end);
    let (t, w, p) = spec_read_key(s, pos, end).unwrap();
    if w != WIRE_END_GROUP {
        let q = spec_skip_field(s, p, end, w, t, budget).unwrap();
        lemma_skip_group_range(s, q, end, tag, budget);
    }
}

/// Reads a field key at `pos`.
pub fn read_key(s: &[u8], pos: usize, end: usize) -> (r: Option<(u32, u8, usize)>)
    requires
        end <= s@.len(),
    ensures
        match r {
            Some((t, w, p)) => spec_read_key(s@, pos as int, end as int) == Some((t, w, p as int)),
            None => spec_read_key(s@, pos as int, end as int) is None,
        },
{
    match read_varint(s, pos, end) {
        Some((k, p)) => {
            if k > 0xffff_ffff || k % 8 > 5 || k / 8 == 0 {
                None
            } else {
                Some(((k / 8) as u32, (k % 8) as u8, p))
            }
        },
        None => None,
    }
}

/// Reads a length prefix at `pos` and returns the payload's bounds.
pub fn read_frame(s: &[u8], pos: usize, end: usize) -> (r: Option<(usize, usize)>)
    requires
        end <= s@.len(),
    ensures
        match r {
            Some((a, b)) => spec_read_frame(s@, pos as int, end as int) == Some((a as int, b as int)),
            None => spec_read_frame(s@, pos as int, end as int) is None,
        },
{
    match read_varint(s, pos, end) {
        Some((len, p)) => {
            proof { lemma_read_varint_range(s@, pos as int, end as int); }
            if len <= (end - p) as u64 {
                Some((p, p + len as usize))
            } else {
                None
            }
        },
        None => None,
    }
}

/// Skips the value of an unknown field whose key has just been read.
pub fn skip_field(s: &[u8], pos: usize, end: usize, wt: u8, tag: u32, budget: u32) -> (r: Option<usize>)
    requires
        pos <= end <= s@.len(),
    ensures
        match r {
            Some(q) => spec_skip_field(s@, pos as int, end as int, wt, tag, budget as nat) == Some(q as int),
            None => spec_skip_field(s@, pos as int, end as int, wt, tag, budget as nat) is None,
        },
    decreases end - pos, 1nat,
{
    if budget == 0 {
        None
    } else if wt == WIRE_VARINT {
        match read_varint(s, pos, end) {
            Some((_, p)) => Some(p),
            None => None,
        }
    } else if wt == WIRE_FIXED64 {
        if end - pos >= 8 { Some(pos + 8) } else { None }
    } else if wt == WIRE_LEN {
        match read_frame(s, pos, end) {
            Some((_, q)) => Some(q),
            None => None,
        }
    } else if wt == WIRE_START_GROUP {
        skip_group(s, pos, end, tag, budget - 1)
    } else if wt == WIRE_FIXED32 {
        if end - pos >= 4 { Some(pos + 4) } else { None }
    } else {
        None
    }
}

/// Skips the rest of a group, through its end-group key.
pub fn skip_group(s: &[u8], pos: usize, end: usize, tag: u32, budget: u32) -> (r: Option<usize>)
    requires
        pos <= end <= s@.len(),
    ensures
        match r {
            Some(q) => spec_skip_group(s@, pos as int, end as int, tag, budget as nat) == Some(q as int),
            None => spec_skip_group(s@, pos as int, end as int, tag, budget as nat) is None,
        },
    decreases end - pos, 0nat,
{
    match read_key(s, pos, end) {
        None => None,
        Some((t, w, p)) => {
            if w == WIRE_END_GROUP {
                if t == tag { Some(p) } else { None }
            } else if p <= pos || p > end {
                None
            } else {
                match skip_field(s, p, end, w, t, budget) {
                    Some(q) => {
                        if pos < q && q <= end {
                            skip_group(s, q, end, tag, budget)
                        } else {
                            None
                        }
                    },
                    None => None,
                }
            }
        },
    }
}

/* Sizes */

/// UTF-8 takes at most four bytes per character.
pub proof fn lemma_utf8_len(text: Seq<char>)
    ensures
        encode_utf8(text).len() <= 4 * text.len(),
    decreases text.len(),
{
    if text.len() > 0 {
        lemma_utf8_len(text.drop_first());
    }
}

/// A length-delimited field costs at most twenty bytes besides its payload.
pub proof fn lemma_frame_len(tag: nat, body: Seq<u8>)
    requires
        tag < 0x1_0000_0000,
        body.len() < 0x1_0000_0000_0000_0000,
    ensures
        spec_frame(tag, body).len() <= body.len() + 20,
{
    lemma_varint_len(tag * 8 + WIRE_LEN as nat);
    lemma_varint_len(body.len());
}

/// A string field costs at most four bytes per character and twenty more.
pub proof fn lemma_string_field_len(tag: nat, text: Seq<char>)
    requires
        tag < 0x1_0000_0000,
        4 * text.len() < 0x1_0000_0000_0000_0000,
    ensures
        spec_string_field(tag, text).len() <= 4 * text.len() + 20,
{
    if text.len() > 0 {
        lemma_utf8_len(text);
        lemma_frame_len(tag, encode_utf8(text));
    }
}

/// A `uint32` field costs at most twenty bytes.
pub proof fn lemma_u32_field_len(tag: nat, v: u32)
    requires
        tag < 0x1_0000_0000,
    ensures
        spec_u32_field(tag, v).len() <= 20,
{
    lemma_varint_len(tag * 8 + WIRE_VARINT as nat);
    lemma_varint_len(v as nat);
}

/* Encoding and decoding of field values */

/// A length-delimited field: its key, the payload's length, the payload.
pub open spec fn spec_frame(tag: nat, body: Seq<u8>) -> Seq<u8> {
    spec_key(tag, WIRE_LEN as nat) + spec_varint(body.len()) + body
}

/// A string field; proto3 leaves out the empty string.
pub open spec fn spec_string_field(tag: nat, text: Seq<char>) -> Seq<u8> {
    if text.len() == 0 {
        Seq::empty()
    } else {
        spec_frame(tag, encode_utf8(text))
    }
}

/// A `uint32` field; proto3 leaves out zero.
pub open spec fn spec_u32_field(tag: nat, v: u32) -> Seq<u8> {
    if v == 0 {
        Seq::empty()
    } else {
        spec_key(tag, WIRE_VARINT as nat) + spec_varint(v as nat)
    }
}

/// The varint value an `int32` travels as: a negative value is sign-extended
/// to 64 bits.
pub open spec fn i32_wire(v: i32) -> nat {
    if v >= 0 {
        v as nat
    } else {
        (v + 0x1_0000_0000_0000_0000) as nat
    }
}

/// An `int32` (or enumeration) field; proto3 leaves out zero.
pub open spec fn spec_i32_field(tag: nat, v: i32) -> Seq<u8> {
    if v == 0 {
        Seq::empty()
    } else {
        spec_key(tag, WIRE_VARINT as nat) + spec_varint(i32_wire(v))
    }
}

/// A decoded varint read as `uint32`: its low 32 bits.
pub open spec fn u32_of_wire(v: int) -> u32 {
    (v % 0x1_0000_0000) as u32
}

/// A decoded varint read as `int32`: its low 32 bits in two's complement.
pub open spec fn i32_of_wire(v: int) -> i32 {
    let low = v % 0x1_0000_0000;
    if low >= 0x8000_0000 {
        (low - 0x1_0000_0000) as i32
    } else {
        low as i32
    }
}

/// Reads the value of a string field whose key has been read: a
/// length-delimited payload that must be valid UTF-8.
pub open spec fn spec_read_string(s: Seq<u8>, pos: int, end: int, wt: u8) -> Option<(Seq<char>, int)> {
    if wt != WIRE_LEN {
        None
    } else {
        match spec_read_frame(s, pos, end) {
            Some((a, b)) => if valid_utf8(s.subrange(a, b)) {
                Some((decode_utf8(s.subrange(a, b)), b))
            } else {
                None
            },
            None => None,
        }
    }
}

/// Reads the value of a `uint32` field whose key has been read.
pub open spec fn spec_read_u32(s: Seq<u8>, pos: int, end: int, wt: u8) -> Option<(u32, int)> {
    if wt != WIRE_VARINT {
        None
    } else {
        match spec_read_varint(s, pos, end) {
            Some((v, p)) => Some((u32_of_wire(v), p)),
            None => None,
        }
    }
}

/// Reads the value of an `int32` field whose key has been read.
pub open spec fn spec_read_i32(s: Seq<u8>, pos: int, end: int, wt: u8) -> Option<(i32, int)> {
    if wt != WIRE_VARINT {
        None
    } else {
        match spec_read_varint(s, pos, end) {
            Some((v, p)) => Some((i32_of_wire(v), p)),
            None => None,
        }
    }
}

/// Reads the frame of an embedded message whose key has been read: the wire
/// type must be length-delimited and the nesting allowance not spent.
pub open spec fn spec_read_message_frame(s: Seq<u8>, pos: int, end: int, wt: u8, budget: nat) -> Option<(int, int)> {
    if wt != WIRE_LEN || budget == 0 {
        None
    } else {
        spec_read_frame(s, pos, end)
    }
}

pub proof fn lemma_bytes_at_split(s: Seq<u8>, pos: int, a: Seq<u8>, b: Seq<u8>)
    requires
        bytes_at(s, pos, a + b),
    ensures
        bytes_at(s, pos, a),
        bytes_at(s, pos + a.len(), b),
{
    assert(s.subrange(pos, pos + a.len()) =~= (a + b).subrange(0, a.len() as int));
    assert((a + b).subrange(0, a.len() as int) =~= a);
    assert(s.subrange(pos + a.len(), pos + a.len() + b.len()) =~= (a + b).subrange(a.len() as int, (a + b).len() as int));
    assert((a + b).subrange(a.len() as int, (a + b).len() as int) =~= b);
}

pub proof fn lemma_read_key_roundtrip(s: Seq<u8>, pos: int, end: int, tag: nat, wt: nat)
    requires
        1 <= tag < 0x2000_0000,
        wt <= 5,
        bytes_at(s, pos, spec_key(tag, wt)),
        pos + spec_key(tag, wt).len() <= end <= s.len(),
    ensures
        spec_read_key(s, pos, end) == Some((tag as u32, wt as u8, pos + spec_key(tag, wt).len())),
{
    lemma_read_varint_roundtrip(s, pos, end, tag * 8 + wt);
}

pub proof fn lemma_read_frame_roundtrip(s: Seq<u8>, pos: int, end: int, body: Seq<u8>)
    requires
        body.len() < 0x1_0000_0000_0000_0000,
        bytes_at(s, pos, spec_varint(body.len()) + body),
        pos + spec_varint(body.len()).len() + body.len() <= end <= s.len(),
    ensures
        spec_read_frame(s, pos, end) == Some((pos + spec_varint(body.len()).len(), pos + spec_varint(body.len()).len() + body.len())),
        s.subrange(pos + spec_varint(body.len()).len(), pos + spec_varint(body.len()).len() + body.len()) == body,
{
    lemma_bytes_at_split(s, pos, spec_varint(body.len()), body);
    lemma_read_varint_roundtrip(s, pos, end, body.len());
}

/// A framed payload placed at `pos` reads back as its key, then its bounds.
pub proof fn lemma_frame_roundtrip(s: Seq<u8>, pos: int, end: int, tag: nat, body: Seq<u8>)
    requires
        1 <= tag < 0x2000_0000,
        body.len() < 0x1_0000_0000_0000_0000,
        bytes_at(s, pos, spec_frame(tag, body)),
        pos + spec_frame(tag, body).len() <= end <= s.len(),
    ensures
        ({
            let k = pos + spec_key(tag, WIRE_LEN as nat).len();
            let a = k + spec_varint(body.len()).len();
            &&& spec_read_key(s, pos, end) == Some((tag as u32, WIRE_LEN, k))
            &&& spec_read_frame(s, k, end) == Some((a, a + body.len()))
            &&& s.subrange(a, a + body.len()) == body
            &&& a + body.len() == pos + spec_frame(tag, body).len()
        }),
{
    let key = spec_key(tag, WIRE_LEN as nat);
    assert(spec_frame(tag, body) == key + (spec_varint(body.len()) + body));
    lemma_bytes_at_split(s, pos, key, spec_varint(body.len()) + body);
    lemma_read_key_roundtrip(s, pos, end, tag, WIRE_LEN as nat);
    lemma_read_frame_roundtrip(s, pos + key.len(), end, body);
}

/// A negative `int32` travels sign-extended to 64 bits and reads back as
/// itself.
proof fn lemma_i32_wire(v: i32)
    ensures
        i32_of_wire(i32_wire(v) as int) == v,
        i32_wire(v) < 0x1_0000_0000_0000_0000,
{
    if v < 0 {
        let x = v + 0x1_0000_0000_0000_0000;
        assert(x % 0x1_0000_0000 == v + 0x1_0000_0000) by (nonlinear_arith)
            requires
                x == v + 0x1_0000_0000_0000_0000,
                -0x8000_0000 <= v < 0,
        {
            assert(x == 0x1_0000_0000 * 0xffff_ffff + (v + 0x1_0000_0000));
        }
    }
}

/// A non-empty string field placed at `pos` reads back as its key, then its
/// text.
pub proof fn lemma_string_field_roundtrip(s: Seq<u8>, pos: int, end: int, tag: nat, text: Seq<char>)
    requires
        1 <= tag < 0x2000_0000,
        text.len() > 0,
        spec_string_field(tag, text).len() < 0x1_0000_0000_0000_0000,
        bytes_at(s, pos, spec_string_field(tag, text)),
        pos + spec_string_field(tag, text).len() <= end <= s.len(),
    ensures
        ({
            let k = pos + spec_key(tag, WIRE_LEN as nat).len();
            &&& spec_read_key(s, pos, end) == Some((tag as u32, WIRE_LEN, k))
            &&& spec_read_string(s, k, end, WIRE_LEN) == Some((text, pos + spec_string_field(tag, text).len()))
        }),
{
    broadcast use vstd::utf8::group_utf8_lib;
    lemma_frame_roundtrip(s, pos, end, tag, encode_utf8(text));
}

/// A non-zero `uint32` field placed at `pos` reads back as its key, then its
/// value.
pub proof fn lemma_u32_field_roundtrip(s: Seq<u8>, pos: int, end: int, tag: nat, v: u32)
    requires
        1 <= tag < 0x2000_0000,
        v != 0,
        bytes_at(s, pos, spec_u32_field(tag, v)),
        pos + spec_u32_field(tag, v).len() <= end <= s.len(),
    ensures
        ({
            let k = pos + spec_key(tag, WIRE_VARINT as nat).len();
            &&& spec_read_key(s, pos, end) == Some((tag as u32, WIRE_VARINT, k))
            &&& spec_read_u32(s, k, end, WIRE_VARINT) == Some((v, pos + spec_u32_field(tag, v).len()))
        }),
{
    let key = spec_key(tag, WIRE_VARINT as nat);
    lemma_bytes_at_split(s, pos, key, spec_varint(v as nat));
    lemma_read_key_roundtrip(s, pos, end, tag, WIRE_VARINT as nat);
    lemma_read_varint_roundtrip(s, pos + key.len(), end, v as nat);
}

/// A non-zero `int32` field placed at `pos` reads back as its key, then its
/// value.
pub proof fn lemma_i32_field_roundtrip(s: Seq<u8>, pos: int, end: int, tag: nat, v: i32)
    requires
        1 <= tag < 0x2000_0000,
        v != 0,
        bytes_at(s, pos, spec_i32_field(tag, v)),
        pos + spec_i32_field(tag, v).len() <= end <= s.len(),
    ensures
        ({
            let k = pos + spec_key(tag, WIRE_VARINT as nat).len();
            &&& spec_read_key(s, pos, end) == Some((tag as u32, WIRE_VARINT, k))
            &&& spec_read_i32(s, k, end, WIRE_VARINT) == Some((v, pos + spec_i32_field(tag, v).len()))
        }),
{
    let key = spec_key(tag, WIRE_VARINT as nat);
    lemma_i32_wire(v);
    lemma_bytes_at_split(s, pos, key, spec_varint(i32_wire(v)));
    lemma_read_key_roundtrip(s, pos, end, tag, WIRE_VARINT as nat);
    lemma_read_varint_roundtrip(s, pos + key.len(), end, i32_wire(v));
}

/// An embedded message placed at `pos` reads back as its key, then the frame
/// that holds its encoding.
pub proof fn lemma_message_field_roundtrip(s: Seq<u8>, pos: int, end: int, tag: nat, body: Seq<u8>, budget: nat)
    requires
        1 <= tag < 0x2000_0000,
        budget > 0,
        spec_frame(tag, body).len() < 0x1_0000_0000_0000_0000,
        bytes_at(s, pos, spec_frame(tag, body)),
        pos + spec_frame(tag, body).len() <= end <= s.len(),
    ensures
        ({
            let k = pos + spec_key(tag, WIRE_LEN as nat).len();
            let stop = pos + spec_frame(tag, body).len();
            &&& spec_read_key(s, pos, end) == Some((tag as u32, WIRE_LEN, k))
            &&& spec_read_message_frame(s, k, end, WIRE_LEN, budget) == Some((stop - body.len(), stop))
            &&& bytes_at(s, stop - body.len(), body)
            &&& pos < stop - body.len()
        }),
{
    lemma_frame_roundtrip(s, pos, end, tag, body);
    lemma_varint_len(tag * 8 + 2);
}

/// Appends the key of field `tag` with wire type `wt`.
pub fn write_key(tag: u32, wt: u8, out: &mut Vec<u8>)
    requires
        wt <= 5,
    ensures
        final(out)@ == old(out)@ + spec_key(tag as nat, wt as nat),
{
    write_varint(tag as u64 * 8 + wt as u64, out);
}

/// Appends a length-delimited field whose payload is `body`.
pub fn write_frame(tag: u32, body: &mut Vec<u8>, out: &mut Vec<u8>)
    ensures
        final(out)@ == old(out)@ + spec_frame(tag as nat, old(body)@),
{
    write_key(tag, WIRE_LEN, out);
    write_varint(body.len() as u64, out);
    out.append(body);
    assert(final(out)@ =~= old(out)@ + spec_frame(tag as nat, old(body)@));
}

/// Appends a string field, or nothing for the empty string.
pub fn write_string_field(tag: u32, text: &String, out: &mut Vec<u8>)
    ensures
        final(out)@ == old(out)@ + spec_string_field(tag as nat, text@),
{
    let bytes = text.as_str().as_bytes();
    proof {
        broadcast use vstd::utf8::group_utf8_lib;
    }
    if bytes.len() == 0 {
        assert(text@.len() == 0) by {
            if text@.len() > 0 {
                vstd::utf8::encode_utf8_first_scalar(text@);
            }
        }
        assert(out@ =~= old(out)@ + spec_string_field(tag as nat, text@));
        return;
    }
    assert(text@.len() != 0);
    let mut body = slice_to_vec(bytes);
    write_frame(tag, &mut body, out);
}

/// Appends a `uint32` field, or nothing for zero.
pub fn write_u32_field(tag: u32, v: u32, out: &mut Vec<u8>)
    ensures
        final(out)@ == old(out)@ + spec_u32_field(tag as nat, v),
{
    if v == 0 {
        assert(out@ =~= old(out)@ + spec_u32_field(tag as nat, v));
        return;
    }
    write_key(tag, WIRE_VARINT, out);
    write_varint(v as u64, out);
    assert(final(out)@ =~= old(out)@ + spec_u32_field(tag as nat, v));
}

/// Appends an `int32` field, or nothing for zero.
pub fn write_i32_field(tag: u32, v: i32, out: &mut Vec<u8>)
    ensures
        final(out)@ == old(out)@ + spec_i32_field(tag as nat, v),
{
    if v == 0 {
        assert(out@ =~= old(out)@ + spec_i32_field(tag as nat, v));
        return;
    }
    write_key(tag, WIRE_VARINT, out);
    let w: u64 = if v >= 0 {
        v as u64
    } else {
        (0xffff_ffff_ffff_ffffu64 - ((-(v as i64) - 1) as u64))
    };
    assert(w as nat == i32_wire(v));
    write_varint(w, out);
    assert(final(out)@ =~= old(out)@ + spec_i32_field(tag as nat, v));
}

/// Reads the value of a string field whose key has been read.
pub fn read_string(s: &[u8], pos: usize, end: usize, wt: u8) -> (r: Option<(String, usize)>)
    requires
        end <= s@.len(),
    ensures
        match r {
            Some((text, p)) => spec_read_string(s@, pos as int, end as int, wt) == Some((text@, p as int)),
            None => spec_read_string(s@, pos as int, end as int, wt) is None,
        },
{
    if wt != WIRE_LEN {
        return None;
    }
    match read_frame(s, pos, end) {
        Some((a, b)) => {
            proof { lemma_read_frame_range(s@, pos as int, end as int); }
            let bytes = slice_to_vec(slice_subrange(s, a, b));
            match string_from_utf8(bytes) {
                Some(text) => {
                    proof {
                        vstd::utf8::encode_utf8_decode_utf8(text@);
                    }
                    Some((text, b))
                },
                None => None,
            }
        },
        None => None,
    }
}

/// Reads the value of a `uint32` field whose key has been read.
pub fn read_u32(s: &[u8], pos: usize, end: usize, wt: u8) -> (r: Option<(u32, usize)>)
    requires
        end <= s@.len(),
    ensures
        match r {
            Some((v, p)) => spec_read_u32(s@, pos as int, end as int, wt) == Some((v, p as int)),
            None => spec_read_u32(s@, pos as int, end as int, wt) is None,
        },
{
    if wt != WIRE_VARINT {
        return None;
    }
    match read_varint(s, pos, end) {
        Some((v, p)) => Some(((v % 0x1_0000_0000) as u32, p)),
        None => None,
    }
}

/// Reads the value of an `int32` field whose key has been read.
pub fn read_i32(s: &[u8], pos: usize, end: usize, wt: u8) -> (r: Option<(i32, usize)>)
    requires
        end <= s@.len(),
    ensures
        match r {
            Some((v, p)) => spec_read_i32(s@, pos as int, end as int, wt) == Some((v, p as int)),
            None => spec_read_i32(s@, pos as int, end as int, wt) is None,
        },
{
    if wt != WIRE_VARINT {
        return None;
    }
    match read_varint(s, pos, end) {
        Some((v, p)) => {
            let low = v % 0x1_0000_0000;
            let x: i32 = if low >= 0x8000_0000 {
                (low as i64 - 0x1_0000_0000) as i32
            } else {
                low as i32
            };
            Some((x, p))
        },
        None => None,
    }
}

/// Reads the frame of an embedded message whose key has been read.
pub fn read_message_frame(s: &[u8], pos: usize, end: usize, wt: u8, budget: u32) -> (r: Option<(usize, usize)>)
    requires
        end <= s@.len(),
    ensures
        match r {
            Some((a, b)) => spec_read_message_frame(s@, pos as int, end as int, wt, budget as nat) == Some((a as int, b as int)),
            None => spec_read_message_frame(s@, pos as int, end as int, wt, budget as nat) is None,
        },
{
    if wt != WIRE_LEN || budget == 0 {
        None
    } else {
        read_frame(s, pos, end)
    }
}

/// `String::from_utf8`, which accepts exactly the well-formed UTF-8 byte
/// sequences and yields the string whose UTF-8 bytes they are.
#[verifier::external_body]
fn string_from_utf8(bytes: Vec<u8>) -> (r: Option<String>)
    ensures
        r is Some <==> valid_utf8(bytes@),
        r matches Some(text) ==> encode_utf8(text@) == bytes@,
{
    String::from_utf8(bytes).ok()
}

} // verus!
