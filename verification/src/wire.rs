//! The protobuf wire format: a message is a sequence of tagged fields.
//!
//! Decoding and encoding go through [`Field`] values. A message's own codec
//! (see [`crate::proto`]) says which fields a value is written as and how a
//! decoded field is merged into a value.

use crate::order;
use vstd::prelude::*;
use vstd::utf8::*;

verus! {

/// How deep unknown groups may nest before decoding gives up.
pub const RECURSION_LIMIT: u32 = 100;

/// Bytes that are not a well-formed message.
#[derive(Debug, Clone, Copy, PartialEq, Eq)]
pub struct WireError;

/// The payload of a field as it stands on the wire. The payload of a
/// fixed-width value or of a group is never read and is not kept.
#[derive(Debug, Clone)]
pub enum WireValue {
    Varint(u64),
    Fixed64,
    Bytes(Vec<u8>),
    Group,
    Fixed32,
}

/// One tagged field of a message.
#[derive(Debug, Clone)]
pub struct Field {
    pub tag: u32,
    pub value: WireValue,
}

/// The mathematical counterpart of [`WireValue`].
pub enum WireView {
    Varint(u64),
    Fixed64,
    Bytes(Seq<u8>),
    Group,
    Fixed32,
}

/// The mathematical counterpart of [`Field`].
pub struct FieldView {
    pub tag: u32,
    pub value: WireView,
}

impl View for WireValue {
    type V = WireView;

    open spec fn view(&self) -> WireView {
        match self {
            WireValue::Varint(v) => WireView::Varint(*v),
            WireValue::Fixed64 => WireView::Fixed64,
            WireValue::Bytes(b) => WireView::Bytes(b@),
            WireValue::Group => WireView::Group,
            WireValue::Fixed32 => WireView::Fixed32,
        }
    }
}

impl View for Field {
    type V = FieldView;

    open spec fn view(&self) -> FieldView {
        FieldView { tag: self.tag, value: self.value@ }
    }
}

// ---------------------------------------------------------------------------
// Varints
// ---------------------------------------------------------------------------

/// The base-128 encoding of `n`, least significant group first, each byte but
/// the last with its high bit set.
pub open spec fn varint(n: nat) -> Seq<u8>
    decreases n,
{
    if n < 128 {
        seq![n as u8]
    } else {
        seq![(n % 128 + 128) as u8] + varint(n / 128)
    }
}

/// Reads a varint of which `count` bytes have been read already: its value and
/// what follows it. A varint has at most ten bytes and a 64-bit value.
pub open spec fn varint_from(bytes: Seq<u8>, count: nat) -> Option<(nat, Seq<u8>)>
    decreases bytes.len(),
{
    if bytes.len() == 0 || count >= 10 {
        None
    } else if bytes[0] < 128 {
        if count == 9 && bytes[0] >= 2 {
            None
        } else {
            Some((bytes[0] as nat, bytes.drop_first()))
        }
    } else {
        match varint_from(bytes.drop_first(), count + 1) {
            None => None,
            Some((high, rest)) => Some(((bytes[0] - 128 + 128 * high) as nat, rest)),
        }
    }
}

/// What a varint may not reach when `count` bytes of it have been read.
pub open spec fn varint_bound(count: nat) -> nat
    decreases 10 - count,
{
    if count >= 10 {
        0
    } else if count == 9 {
        2
    } else {
        128 * varint_bound(count + 1)
    }
}

proof fn lemma_varint_bound_is_u64()
    ensures
        varint_bound(0) == u64::MAX + 1,
{
    reveal_with_fuel(varint_bound, 11);
    assert(varint_bound(8) == 256);
    assert(varint_bound(7) == 256 * 128);
    assert(varint_bound(0) == 0x1_0000_0000_0000_0000);
}

/// A varint that was read is in range and leaves less behind.
proof fn lemma_varint_from_bounds(bytes: Seq<u8>, count: nat)
    ensures
        varint_from(bytes, count) matches Some((v, rest)) ==> v < varint_bound(count)
            && rest.len() < bytes.len(),
    decreases bytes.len(),
{
    if bytes.len() > 0 && count < 10 {
        if bytes[0] >= 128 {
            lemma_varint_from_bounds(bytes.drop_first(), count + 1);
        } else if count < 9 {
            assert(varint_bound(count) >= 128) by {
                lemma_varint_bound_positive(count + 1);
            }
        }
    }
}

proof fn lemma_varint_bound_positive(count: nat)
    requires
        count <= 9,
    ensures
        varint_bound(count) >= 1,
    decreases 10 - count,
{
    if count < 9 {
        lemma_varint_bound_positive(count + 1);
    }
}

/// Reading back a written varint.
proof fn lemma_varint_from_varint(n: nat, count: nat, rest: Seq<u8>)
    requires
        n < varint_bound(count),
    ensures
        varint_from(varint(n) + rest, count) == Some((n, rest)),
    decreases n,
{
    let bytes = varint(n) + rest;
    if n < 128 {
        assert(bytes.drop_first() =~= rest);
    } else {
        assert(bytes.drop_first() =~= varint(n / 128) + rest);
        assert(n / 128 < varint_bound(count + 1));
        lemma_varint_from_varint(n / 128, count + 1, rest);
        assert(bytes[0] == (n % 128 + 128) as u8);
    }
}

/// Reading a varint gives back the number that was written and what followed
/// it.
pub proof fn law_varint_round_trip(n: u64, rest: Seq<u8>)
    ensures
        varint_from(varint(n as nat) + rest, 0) == Some((n as nat, rest)),
{
    lemma_varint_bound_is_u64();
    lemma_varint_from_varint(n as nat, 0, rest);
}

/// Declares `prost::DecodeError`.
#[verifier::external_type_specification]
#[verifier::external_body]
pub struct ExDecodeError(prost::DecodeError);

/// Calls `prost::encoding::decode_varint`, which reads one LEB128 integer off
/// the front of a buffer. Claimed: it succeeds exactly on a varint of at most
/// ten bytes whose value fits in 64 bits, gives that value, and advances the
/// buffer just past it.
#[verifier::external_body]
fn decode_varint<'a>(bytes: &'a [u8]) -> (r: Result<(u64, &'a [u8]), prost::DecodeError>)
    ensures
        r is Ok <==> varint_from(bytes@, 0) is Some,
        r matches Ok((v, rest)) ==> varint_from(bytes@, 0) == Some((v as nat, rest@)),
{
    let mut rest = bytes;
    match prost::encoding::decode_varint(&mut rest) {
        Ok(v) => Ok((v, rest)),
        Err(e) => Err(e),
    }
}

/// Calls `prost::encoding::encode_varint`, which appends the LEB128 form of an
/// integer to a buffer. Claimed: exactly those bytes are appended.
#[verifier::external_body]
fn encode_varint(value: u64, out: &mut Vec<u8>)
    ensures
        final(out)@ == old(out)@ + varint(value as nat),
{
    prost::encoding::encode_varint(value, out)
}

fn take_varint<'a>(bytes: &'a [u8]) -> (r: Result<(u64, &'a [u8]), WireError>)
    ensures
        r is Ok <==> varint_from(bytes@, 0) is Some,
        r matches Ok((v, rest)) ==> varint_from(bytes@, 0) == Some((v as nat, rest@))
            && rest@.len() < bytes@.len(),
{
    proof {
        lemma_varint_from_bounds(bytes@, 0);
    }
    match decode_varint(bytes) {
        Ok(p) => Ok(p),
        Err(_) => Err(WireError),
    }
}

// ---------------------------------------------------------------------------
// Fields
// ---------------------------------------------------------------------------

/// Reads a field key: the tag, the wire type and what follows.
pub open spec fn key_from(bytes: Seq<u8>) -> Option<(nat, nat, Seq<u8>)> {
    match varint_from(bytes, 0) {
        None => None,
        Some((key, rest)) => if key > u32::MAX || key % 8 > 5 || key / 8 == 0 {
            None
        } else {
            Some((key / 8, key % 8, rest))
        },
    }
}

/// Reads one field: the field and what follows. `limit` is how deep groups may
/// still nest.
pub open spec fn field_from(bytes: Seq<u8>, limit: nat) -> Option<(FieldView, Seq<u8>)>
    decreases bytes.len(), 0int,
{
    match key_from(bytes) {
        None => None,
        Some((tag, wire_type, rest)) => if limit == 0 || rest.len() >= bytes.len() {
            None
        } else if wire_type == 0 {
            match varint_from(rest, 0) {
                None => None,
                Some((v, rest)) => Some(
                    (FieldView { tag: tag as u32, value: WireView::Varint(v as u64) }, rest),
                ),
            }
        } else if wire_type == 1 {
            if rest.len() < 8 {
                None
            } else {
                Some((FieldView { tag: tag as u32, value: WireView::Fixed64 }, rest.skip(8)))
            }
        } else if wire_type == 2 {
            match varint_from(rest, 0) {
                None => None,
                Some((len, rest)) => if len > rest.len() {
                    None
                } else {
                    Some(
                        (
                            FieldView {
                                tag: tag as u32,
                                value: WireView::Bytes(rest.take(len as int)),
                            },
                            rest.skip(len as int),
                        ),
                    )
                },
            }
        } else if wire_type == 3 {
            match group_end_from(rest, tag, limit) {
                None => None,
                Some(rest) => Some(
                    (FieldView { tag: tag as u32, value: WireView::Group }, rest),
                ),
            }
        } else if wire_type == 4 {
            None
        } else {
            if rest.len() < 4 {
                None
            } else {
                Some((FieldView { tag: tag as u32, value: WireView::Fixed32 }, rest.skip(4)))
            }
        },
    }
}

/// Skips the fields of a group up to its end: what follows the group.
pub open spec fn group_end_from(bytes: Seq<u8>, tag: nat, limit: nat) -> Option<Seq<u8>>
    decreases bytes.len(), 1int,
{
    match key_from(bytes) {
        None => None,
        Some((inner, wire_type, rest)) => if wire_type == 4 {
            if inner == tag {
                Some(rest)
            } else {
                None
            }
        } else if limit == 0 {
            None
        } else {
            match field_from(bytes, (limit - 1) as nat) {
                None => None,
                Some((_, rest)) => if rest.len() >= bytes.len() {
                    None
                } else {
                    group_end_from(rest, tag, limit)
                },
            }
        },
    }
}

/// All fields of a message, in order; `None` where the bytes are malformed.
pub open spec fn fields_from(bytes: Seq<u8>, limit: nat) -> Option<Seq<FieldView>>
    decreases bytes.len(),
{
    if bytes.len() == 0 {
        Some(Seq::empty())
    } else {
        match field_from(bytes, limit) {
            None => None,
            Some((field, rest)) => if rest.len() >= bytes.len() {
                None
            } else {
                match fields_from(rest, limit) {
                    None => None,
                    Some(fields) => Some(seq![field] + fields),
                }
            },
        }
    }
}

/// The bytes of a field: its key, then its payload.
pub open spec fn field_bytes(field: FieldView) -> Seq<u8> {
    match field.value {
        WireView::Varint(v) => varint((field.tag * 8) as nat) + varint(v as nat),
        WireView::Bytes(b) => varint((field.tag * 8 + 2) as nat) + varint(b.len()) + b,
        _ => Seq::empty(),
    }
}

/// The bytes of a message: its fields one after the other.
#[verifier::opaque]
pub open spec fn fields_bytes(fields: Seq<FieldView>) -> Seq<u8>
    decreases fields.len(),
{
    if fields.len() == 0 {
        Seq::empty()
    } else {
        fields_bytes(fields.drop_last()) + field_bytes(fields.last())
    }
}

/// A field that can be written: its tag is in range and its payload is a
/// varint or a byte string.
pub open spec fn writable(field: FieldView) -> bool {
    &&& 1 <= field.tag < 0x2000_0000
    &&& field.value is Varint || field.value is Bytes
    &&& field.value matches WireView::Bytes(b) ==> b.len() <= u64::MAX
}

pub open spec fn all_writable(fields: Seq<FieldView>) -> bool {
    forall|i: int| 0 <= i < fields.len() ==> writable(#[trigger] fields[i])
}

proof fn lemma_key_round_trip(tag: u32, wire_type: nat, rest: Seq<u8>)
    requires
        1 <= tag < 0x2000_0000,
        wire_type <= 5,
    ensures
        key_from(varint((tag * 8 + wire_type) as nat) + rest) == Some(
            (tag as nat, wire_type, rest),
        ),
{
    law_varint_round_trip((tag * 8 + wire_type) as u64, rest);
}

proof fn lemma_varint_nonempty(n: nat)
    ensures
        varint(n).len() >= 1,
{
}

proof fn lemma_field_round_trip(field: FieldView, rest: Seq<u8>, limit: nat)
    requires
        writable(field),
        limit >= 1,
    ensures
        field_from(field_bytes(field) + rest, limit) == Some((field, rest)),
        field_bytes(field).len() >= 1,
{
    let bytes = field_bytes(field) + rest;
    match field.value {
        WireView::Varint(v) => {
            let k = varint((field.tag * 8) as nat);
            let tail = varint(v as nat) + rest;
            lemma_varint_nonempty((field.tag * 8) as nat);
            assert(bytes =~= k + tail);
            lemma_key_round_trip(field.tag, 0, tail);
            law_varint_round_trip(v, rest);
        },
        WireView::Bytes(b) => {
            let k = varint((field.tag * 8 + 2) as nat);
            let tail = varint(b.len()) + (b + rest);
            lemma_varint_nonempty((field.tag * 8 + 2) as nat);
            assert(bytes =~= k + tail);
            lemma_key_round_trip(field.tag, 2, tail);
            law_varint_round_trip(b.len() as u64, b + rest);
            assert((b + rest).take(b.len() as int) =~= b);
            assert((b + rest).skip(b.len() as int) =~= rest);
        },
        _ => {},
    }
}

proof fn lemma_fields_bytes_prepend(field: FieldView, fields: Seq<FieldView>)
    ensures
        fields_bytes(seq![field] + fields) == field_bytes(field) + fields_bytes(fields),
    decreases fields.len(),
{
    reveal_with_fuel(fields_bytes, 2);
    let all = seq![field] + fields;
    if fields.len() == 0 {
        assert(all.drop_last() =~= Seq::<FieldView>::empty());
        assert(all.last() == field);
        assert(fields_bytes(all.drop_last()) =~= Seq::<u8>::empty());
        assert(fields_bytes(all) =~= field_bytes(field) + fields_bytes(fields));
    } else {
        assert(all.drop_last() =~= seq![field] + fields.drop_last());
        assert(all.last() == fields.last());
        lemma_fields_bytes_prepend(field, fields.drop_last());
        assert(fields_bytes(all) =~= field_bytes(field) + fields_bytes(fields));
    }
}

/// Decoding the bytes of a message gives back its fields.
pub proof fn law_fields_round_trip(fields: Seq<FieldView>, limit: nat)
    requires
        all_writable(fields),
        limit >= 1,
    ensures
        fields_from(fields_bytes(fields), limit) == Some(fields),
    decreases fields.len(),
{
    reveal_with_fuel(fields_bytes, 2);
    if fields.len() == 0 {
        assert(fields =~= Seq::empty());
    } else {
        let first = fields[0];
        let rest = fields.drop_first();
        assert(fields =~= seq![first] + rest);
        lemma_fields_bytes_prepend(first, rest);
        assert forall|i: int| 0 <= i < rest.len() implies writable(#[trigger] rest[i]) by {
            assert(rest[i] == fields[i + 1]);
        }
        law_fields_round_trip(rest, limit);
        lemma_field_round_trip(first, fields_bytes(rest), limit);
    }
}

/// The bytes of one list of fields after another.
pub proof fn lemma_fields_bytes_add(a: Seq<FieldView>, b: Seq<FieldView>)
    ensures
        fields_bytes(a + b) == fields_bytes(a) + fields_bytes(b),
    decreases b.len(),
{
    reveal_with_fuel(fields_bytes, 2);
    if b.len() == 0 {
        assert(a + b =~= a);
        assert(fields_bytes(a) + fields_bytes(b) =~= fields_bytes(a));
    } else {
        assert((a + b).drop_last() =~= a + b.drop_last());
        lemma_fields_bytes_add(a, b.drop_last());
        assert(fields_bytes(a + b) =~= fields_bytes(a) + fields_bytes(b));
    }
}

/// Distinct lists of fields have distinct encodings.
pub proof fn law_fields_bytes_injective(a: Seq<FieldView>, b: Seq<FieldView>)
    requires
        all_writable(a),
        all_writable(b),
        fields_bytes(a) == fields_bytes(b),
    ensures
        a == b,
{
    law_fields_round_trip(a, 1);
    law_fields_round_trip(b, 1);
}

fn take_key<'a>(bytes: &'a [u8]) -> (r: Result<(u32, u32, &'a [u8]), WireError>)
    ensures
        r is Ok <==> key_from(bytes@) is Some,
        r matches Ok((tag, wire_type, rest)) ==> key_from(bytes@) == Some(
            (tag as nat, wire_type as nat, rest@),
        ) && rest@.len() < bytes@.len(),
{
    let (key, rest) = match take_varint(bytes) {
        Ok(p) => p,
        Err(e) => return Err(e),
    };
    if key > 0xffff_ffff || key % 8 > 5 || key / 8 == 0 {
        return Err(WireError);
    }
    Ok(((key / 8) as u32, (key % 8) as u32, rest))
}

fn take_field<'a>(bytes: &'a [u8], limit: u32) -> (r: Result<(Field, &'a [u8]), WireError>)
    ensures
        r is Ok <==> field_from(bytes@, limit as nat) is Some,
        r matches Ok((field, rest)) ==> field_from(bytes@, limit as nat) == Some((field@, rest@))
            && rest@.len() < bytes@.len(),
    decreases bytes@.len(), 0int,
{
    let (tag, wire_type, rest) = match take_key(bytes) {
        Ok(p) => p,
        Err(e) => return Err(e),
    };
    if limit == 0 {
        return Err(WireError);
    }
    if wire_type == 0 {
        match take_varint(rest) {
            Ok((v, rest)) => Ok((Field { tag, value: WireValue::Varint(v) }, rest)),
            Err(e) => Err(e),
        }
    } else if wire_type == 1 {
        if rest.len() < 8 {
            return Err(WireError);
        }
        let tail = vstd::slice::slice_subrange(rest, 8, rest.len());
        assert(tail@ =~= rest@.skip(8));
        Ok((Field { tag, value: WireValue::Fixed64 }, tail))
    } else if wire_type == 2 {
        let (len, rest) = match take_varint(rest) {
            Ok(p) => p,
            Err(e) => return Err(e),
        };
        if len > rest.len() as u64 {
            return Err(WireError);
        }
        let n: usize = len as usize;
        let payload = vstd::slice::slice_to_vec(vstd::slice::slice_subrange(rest, 0, n));
        let tail = vstd::slice::slice_subrange(rest, n, rest.len());
        assert(payload@ =~= rest@.take(len as int));
        assert(tail@ =~= rest@.skip(len as int));
        Ok((Field { tag, value: WireValue::Bytes(payload) }, tail))
    } else if wire_type == 3 {
        match skip_group(rest, tag, limit) {
            Ok(rest) => Ok((Field { tag, value: WireValue::Group }, rest)),
            Err(e) => Err(e),
        }
    } else if wire_type == 4 {
        Err(WireError)
    } else {
        if rest.len() < 4 {
            return Err(WireError);
        }
        let tail = vstd::slice::slice_subrange(rest, 4, rest.len());
        assert(tail@ =~= rest@.skip(4));
        Ok((Field { tag, value: WireValue::Fixed32 }, tail))
    }
}

fn skip_group<'a>(bytes: &'a [u8], tag: u32, limit: u32) -> (r: Result<&'a [u8], WireError>)
    ensures
        r is Ok <==> group_end_from(bytes@, tag as nat, limit as nat) is Some,
        r matches Ok(rest) ==> group_end_from(bytes@, tag as nat, limit as nat) == Some(rest@)
            && rest@.len() < bytes@.len(),
    decreases bytes@.len(), 1int,
{
    let (inner, wire_type, rest) = match take_key(bytes) {
        Ok(p) => p,
        Err(e) => return Err(e),
    };
    if wire_type == 4 {
        if inner == tag {
            return Ok(rest);
        }
        return Err(WireError);
    }
    if limit == 0 {
        return Err(WireError);
    }
    let (_, rest) = match take_field(bytes, limit - 1) {
        Ok(p) => p,
        Err(e) => return Err(e),
    };
    skip_group(rest, tag, limit)
}

/// Splits a message into its fields.
pub fn parse_fields(bytes: &[u8], limit: u32) -> (r: Result<Vec<Field>, WireError>)
    ensures
        r is Ok <==> fields_from(bytes@, limit as nat) is Some,
        r matches Ok(fields) ==> fields_from(bytes@, limit as nat) == Some(order::views(fields@)),
{
    let mut fields: Vec<Field> = Vec::new();
    let mut rest = bytes;
    let ghost whole = fields_from(bytes@, limit as nat);
    while rest.len() > 0
        invariant
            whole == fields_from(bytes@, limit as nat),
            whole is Some <==> fields_from(rest@, limit as nat) is Some,
            fields_from(rest@, limit as nat) matches Some(tail) ==> whole == Some(
                order::views(fields@) + tail,
            ),
        decreases rest@.len(),
    {
        let (field, tail) = match take_field(rest, limit) {
            Ok(p) => p,
            Err(e) => return Err(e),
        };
        proof {
            if let Some(after) = fields_from(tail@, limit as nat) {
                assert(order::views(fields@) + (seq![field@] + after) =~= order::views(fields@.push(field))
                    + after);
            }
        }
        fields.push(field);
        rest = tail;
    }
    assert(order::views(fields@) + Seq::empty() =~= order::views(fields@));
    Ok(fields)
}

/// Writes a message's fields one after the other.
pub fn encode_fields(fields: &Vec<Field>) -> (out: Vec<u8>)
    requires
        all_writable(order::views(fields@)),
    ensures
        out@ == fields_bytes(order::views(fields@)),
{
    let mut out: Vec<u8> = Vec::new();
    let mut i: usize = 0;
    let ghost all = order::views(fields@);
    proof {
        reveal_with_fuel(fields_bytes, 2);
        assert(all.take(0) =~= Seq::empty());
    }
    while i < fields.len()
        invariant
            i <= fields@.len(),
            all == order::views(fields@),
            all_writable(all),
            out@ == fields_bytes(all.take(i as int)),
        decreases fields@.len() - i,
    {
        let field = &fields[i];
        proof {
            reveal_with_fuel(fields_bytes, 2);
            assert(all[i as int] == field@);
            assert(all.take(i + 1).drop_last() =~= all.take(i as int));
            assert(all.take(i + 1).last() == field@);
            assert(writable(field@));
        }
        match &field.value {
            WireValue::Varint(v) => {
                encode_varint(field.tag as u64 * 8, &mut out);
                encode_varint(*v, &mut out);
            },
            WireValue::Bytes(b) => {
                encode_varint(field.tag as u64 * 8 + 2, &mut out);
                encode_varint(b.len() as u64, &mut out);
                out.extend_from_slice(b.as_slice());
            },
            _ => {},
        }
        assert(out@ =~= fields_bytes(all.take(i as int)) + field_bytes(field@));
        i = i + 1;
    }
    assert(all.take(fields@.len() as int) =~= all);
    out
}

// ---------------------------------------------------------------------------
// Laws
// ---------------------------------------------------------------------------

/// A field is written as its number and the type of its payload, three bits, in one
/// varint, and then the payload: a varint as it is, bytes behind their length.
pub proof fn law_field_is_key_and_payload(tag: u32, n: u64, b: Seq<u8>)
    ensures
        field_bytes(FieldView { tag, value: WireView::Varint(n) }) == varint((8 * tag) as nat)
            + varint(n as nat),
        field_bytes(FieldView { tag, value: WireView::Bytes(b) }) == varint((8 * tag + 2) as nat)
            + varint(b.len()) + b,
{
}

/// A varint is the number in groups of seven bits, the lowest first, and every byte but
/// the last has its high bit set.
pub proof fn law_varint_is_groups_of_seven_bits(n: nat)
    ensures
        n < 128 ==> varint(n) == seq![n as u8],
        n >= 128 ==> varint(n).len() == 1 + varint(n / 128).len() && varint(n)[0] as nat == 128 + n
            % 128 && varint(n).skip(1) == varint(n / 128),
{
    if n >= 128 {
        assert(varint(n).skip(1) =~= varint(n / 128));
    }
}

/// Fields whose payload is of a fixed size are passed over, and what follows is read on.
pub proof fn law_fixed_fields_are_passed_over(tag: u32, payload: Seq<u8>, rest: Seq<u8>, limit: nat)
    requires
        1 <= tag < 0x2000_0000,
        limit >= 1,
    ensures
        payload.len() == 8 ==> field_from(varint((tag * 8 + 1) as nat) + payload + rest, limit)
            == Some((FieldView { tag, value: WireView::Fixed64 }, rest)),
        payload.len() == 4 ==> field_from(varint((tag * 8 + 5) as nat) + payload + rest, limit)
            == Some((FieldView { tag, value: WireView::Fixed32 }, rest)),
{
    let tail = payload + rest;
    lemma_key_round_trip(tag, 1, tail);
    lemma_key_round_trip(tag, 5, tail);
    lemma_varint_nonempty((tag * 8 + 1) as nat);
    lemma_varint_nonempty((tag * 8 + 5) as nat);
    assert(varint((tag * 8 + 1) as nat) + payload + rest =~= varint((tag * 8 + 1) as nat) + tail);
    assert(varint((tag * 8 + 5) as nat) + payload + rest =~= varint((tag * 8 + 5) as nat) + tail);
    if payload.len() == 8 {
        assert(tail.skip(8) =~= rest);
    }
    if payload.len() == 4 {
        assert(tail.skip(4) =~= rest);
    }
}

/// Bytes that are no field are refused: a key of a type that is none, the number 0, an
/// end of a group where there is none, and a payload that is cut off.
#[verifier::rlimit(40)]
pub proof fn law_broken_fields_are_refused(
    tag: u32,
    wire_type: nat,
    len: u64,
    rest: Seq<u8>,
    limit: nat,
)
    requires
        1 <= tag < 0x2000_0000,
    ensures
        wire_type == 6 || wire_type == 7 ==> field_from(
            varint((tag * 8 + wire_type) as nat) + rest,
            limit,
        ) is None,
        wire_type <= 7 ==> field_from(varint(wire_type) + rest, limit) is None,
        field_from(varint((tag * 8 + 4) as nat) + rest, limit) is None,
        rest.len() < len ==> field_from(
            varint((tag * 8 + 2) as nat) + (varint(len as nat) + rest),
            limit,
        ) is None,
        rest.len() < 8 ==> field_from(varint((tag * 8 + 1) as nat) + rest, limit) is None,
        rest.len() < 4 ==> field_from(varint((tag * 8 + 5) as nat) + rest, limit) is None,
        field_from(Seq::empty(), limit) is None,
{
    if wire_type <= 7 {
        law_varint_round_trip((tag * 8 + wire_type) as u64, rest);
        law_varint_round_trip(wire_type as u64, rest);
    }
    lemma_key_round_trip(tag, 4, rest);
    lemma_key_round_trip(tag, 2, varint(len as nat) + rest);
    law_varint_round_trip(len, rest);
    lemma_key_round_trip(tag, 1, rest);
    lemma_key_round_trip(tag, 5, rest);
}

#[verifier::rlimit(40)]
proof fn lemma_group_is_passed_over(
    fields: Seq<FieldView>,
    tag: u32,
    rest: Seq<u8>,
    limit: nat,
)
    requires
        all_writable(fields),
        1 <= tag < 0x2000_0000,
        limit >= 2,
    ensures
        group_end_from(
            fields_bytes(fields) + (varint((tag * 8 + 4) as nat) + rest),
            tag as nat,
            limit,
        ) == Some(rest),
    decreases fields.len(),
{
    let end = varint((tag * 8 + 4) as nat) + rest;
    let bytes = fields_bytes(fields) + end;
    if fields.len() == 0 {
        reveal_with_fuel(fields_bytes, 2);
        assert(bytes =~= end);
        lemma_key_round_trip(tag, 4, rest);
    } else {
        let first = fields[0];
        let others = fields.drop_first();
        assert(fields =~= seq![first] + others);
        lemma_fields_bytes_prepend(first, others);
        assert forall|i: int| 0 <= i < others.len() implies writable(#[trigger] others[i]) by {
            assert(others[i] == fields[i + 1]);
        }
        let more = fields_bytes(others) + end;
        assert(bytes =~= field_bytes(first) + more);
        lemma_field_round_trip(first, more, (limit - 1) as nat);
        lemma_group_is_passed_over(others, tag, rest, limit);
        match first.value {
            WireView::Varint(v) => {
                lemma_key_round_trip(first.tag, 0, varint(v as nat) + more);
                assert(bytes =~= varint((first.tag * 8) as nat) + (varint(v as nat) + more));
            },
            WireView::Bytes(b) => {
                lemma_key_round_trip(first.tag, 2, varint(b.len()) + b + more);
                assert(bytes =~= varint((first.tag * 8 + 2) as nat) + (varint(b.len()) + b + more));
            },
            _ => {},
        }
    }
}

/// A group is passed over as a whole, whatever fields it holds, up to the end that has
/// its number.
pub proof fn law_groups_are_passed_over(
    fields: Seq<FieldView>,
    tag: u32,
    rest: Seq<u8>,
    limit: nat,
)
    requires
        all_writable(fields),
        1 <= tag < 0x2000_0000,
        limit >= 2,
    ensures
        field_from(
            varint((tag * 8 + 3) as nat) + (fields_bytes(fields) + (varint((tag * 8 + 4) as nat)
                + rest)),
            limit,
        ) == Some((FieldView { tag, value: WireView::Group }, rest)),
{
    let inner = fields_bytes(fields) + (varint((tag * 8 + 4) as nat) + rest);
    lemma_group_is_passed_over(fields, tag, rest, limit);
    lemma_key_round_trip(tag, 3, inner);
    lemma_varint_nonempty((tag * 8 + 3) as nat);
}

/// Groups nest up to a hundred deep.
pub proof fn law_recursion_limit()
    ensures
        RECURSION_LIMIT == 100,
{
}

} // verus!
