//! Protobuf messages: how a value is written as fields, how a field is merged
//! into a value, and the generic encoder and decoder over both.

use crate::order;
use crate::wire;
use crate::wire::{Field, WireError, WireValue};
use vstd::prelude::*;
use vstd::utf8::*;

verus! {

/// What a message type's values are and how they stand on the wire.
pub trait Schema: View + Sized {
    /// The value of a message with no field set.
    spec fn default_view() -> Self::V;

    /// The fields a value is written as, in order. Fields at their default
    /// value are left out.
    spec fn fields_of(v: Self::V) -> Seq<wire::FieldView>;

    /// The value after reading one more field; `None` where the field is known
    /// and its payload does not fit it. `limit` is how deep unknown groups may
    /// nest inside this message.
    spec fn merge_field(v: Self::V, field: wire::FieldView, limit: nat) -> Option<Self::V>;

    /// How many levels of messages nest inside this one, itself included.
    spec fn depth() -> nat;
}

/// A message type: a schema, the proof that it loses nothing, and the code that
/// writes and reads it.
pub trait Message: Schema {
    /// Merging the fields of a value into the default gives the value back.
    proof fn merge_round_trip(v: Self::V, limit: nat)
        requires
            wire::fields_bytes(Self::fields_of(v)).len() <= u64::MAX,
            limit >= Self::depth(),
        ensures
            wire::all_writable(Self::fields_of(v)),
            merge_all::<Self>(Self::default_view(), Self::fields_of(v), limit) == Some(v),
            Self::depth() >= 1,
    ;

    /// A message with no field set.
    fn empty() -> (m: Self)
        ensures
            m@ == Self::default_view(),
    ;

    /// The fields this message is written as.
    fn fields(&self) -> (out: Vec<Field>)
        ensures
            order::views(out@) == Self::fields_of(self@),
            wire::all_writable(Self::fields_of(self@)),
    ;

    /// Merges one decoded field into this message.
    fn merge(&mut self, field: &Field, limit: u32) -> (r: Result<(), WireError>)
        ensures
            r is Ok <==> Self::merge_field(old(self)@, field@, limit as nat) is Some,
            r is Ok ==> Self::merge_field(old(self)@, field@, limit as nat) == Some(final(self)@),
    ;
}

/// Merges a list of fields, in order.
pub open spec fn merge_all<M: Schema>(
    v: M::V,
    fields: Seq<wire::FieldView>,
    limit: nat,
) -> Option<M::V>
    decreases fields.len(),
{
    if fields.len() == 0 {
        Some(v)
    } else {
        match merge_all::<M>(v, fields.drop_last(), limit) {
            None => None,
            Some(u) => M::merge_field(u, fields.last(), limit),
        }
    }
}

/// The encoding of a value.
#[verifier::opaque]
pub open spec fn encoding<M: Schema>(v: M::V) -> Seq<u8> {
    wire::fields_bytes(M::fields_of(v))
}

/// The value that `bytes` merge into `v`, where they are well-formed.
#[verifier::opaque]
pub open spec fn merged<M: Schema>(v: M::V, bytes: Seq<u8>, limit: nat) -> Option<M::V> {
    match wire::fields_from(bytes, limit) {
        None => None,
        Some(fields) => merge_all::<M>(v, fields, limit),
    }
}

/// The value that `bytes` encode, where they are well-formed.
pub open spec fn decoded<M: Schema>(bytes: Seq<u8>, limit: nat) -> Option<M::V> {
    merged::<M>(M::default_view(), bytes, limit)
}

/// Decoding the encoding of a value gives the value back.
pub proof fn law_decode_encode<M: Message>(v: M::V, limit: nat)
    requires
        encoding::<M>(v).len() <= u64::MAX,
        limit >= M::depth(),
    ensures
        decoded::<M>(encoding::<M>(v), limit) == Some(v),
{
    reveal(encoding);
    reveal(merged);
    M::merge_round_trip(v, limit);
    wire::law_fields_round_trip(M::fields_of(v), limit);
}

/// Distinct values have distinct encodings.
pub proof fn law_encoding_injective<M: Message>(a: M::V, b: M::V)
    requires
        encoding::<M>(a).len() <= u64::MAX,
        encoding::<M>(a) == encoding::<M>(b),
    ensures
        a == b,
{
    law_decode_encode::<M>(a, M::depth());
    law_decode_encode::<M>(b, M::depth());
}

/// Merging one list of fields after another.
pub proof fn lemma_merge_all_add<M: Schema>(
    v: M::V,
    a: Seq<wire::FieldView>,
    b: Seq<wire::FieldView>,
    limit: nat,
)
    ensures
        merge_all::<M>(v, a + b, limit) == (match merge_all::<M>(v, a, limit) {
            None => None,
            Some(u) => merge_all::<M>(u, b, limit),
        }),
    decreases b.len(),
{
    if b.len() == 0 {
        assert(a + b =~= a);
    } else {
        assert((a + b).drop_last() =~= a + b.drop_last());
        assert((a + b).last() == b.last());
        lemma_merge_all_add::<M>(v, a, b.drop_last(), limit);
    }
}

/// Every tag is in range and every payload is one that can be written.
pub open spec fn well_tagged(fields: Seq<wire::FieldView>) -> bool {
    forall|i: int|
        0 <= i < fields.len() ==> {
            &&& 1 <= (#[trigger] fields[i]).tag < 0x2000_0000
            &&& fields[i].value is Varint || fields[i].value is Bytes
        }
}

/// Merging these fields into the default gives `v`.
pub open spec fn reaches<M: Schema>(fields: Seq<wire::FieldView>, v: M::V, limit: nat) -> bool {
    &&& well_tagged(fields)
    &&& merge_all::<M>(M::default_view(), fields, limit) == Some(v)
}

/// Extends a list of fields by a run of entries that take the value through
/// `steps(0)`, `steps(1)` and so on.
pub proof fn lemma_reaches_run<M: Schema>(
    fields: Seq<wire::FieldView>,
    run: Seq<wire::FieldView>,
    steps: spec_fn(int) -> M::V,
    limit: nat,
)
    requires
        reaches::<M>(fields, steps(0), limit),
        well_tagged(run),
        forall|k: int|
            0 <= k < run.len() ==> M::merge_field(steps(k), #[trigger] run[k], limit) == Some(
                steps(k + 1),
            ),
    ensures
        reaches::<M>(fields + run, steps(run.len() as int), limit),
    decreases run.len(),
{
    if run.len() == 0 {
        assert(fields + run =~= fields);
    } else {
        let init = run.drop_last();
        assert forall|k: int| 0 <= k < init.len() implies M::merge_field(
            steps(k),
            #[trigger] init[k],
            limit,
        ) == Some(steps(k + 1)) by {
            assert(init[k] == run[k]);
        }
        assert forall|i: int| 0 <= i < init.len() implies {
            &&& 1 <= (#[trigger] init[i]).tag < 0x2000_0000
            &&& init[i].value is Varint || init[i].value is Bytes
        } by {
            assert(init[i] == run[i]);
        }
        lemma_reaches_run::<M>(fields, init, steps, limit);
        assert((fields + run).drop_last() =~= fields + init);
        assert((fields + run).last() == run[run.len() - 1]);
        assert forall|i: int| 0 <= i < (fields + run).len() implies {
            &&& 1 <= (#[trigger] (fields + run)[i]).tag < 0x2000_0000
            &&& (fields + run)[i].value is Varint || (fields + run)[i].value is Bytes
        } by {
            if i < fields.len() {
                assert((fields + run)[i] == fields[i]);
            } else {
                assert((fields + run)[i] == run[i - fields.len()]);
            }
        }
    }
}

/// Extends a list of fields by one optional entry.
pub proof fn lemma_reaches_field<M: Schema>(
    fields: Seq<wire::FieldView>,
    entry: Seq<wire::FieldView>,
    before: M::V,
    after: M::V,
    limit: nat,
)
    requires
        reaches::<M>(fields, before, limit),
        well_tagged(entry),
        entry.len() <= 1,
        entry.len() == 0 ==> before == after,
        entry.len() == 1 ==> M::merge_field(before, entry[0], limit) == Some(after),
    ensures
        reaches::<M>(fields + entry, after, limit),
{
    let steps = |k: int|
        if k == 0 {
            before
        } else {
            after
        };
    lemma_reaches_run::<M>(fields, entry, steps, limit);
}

/// No fields at all.
pub proof fn lemma_reaches_default<M: Schema>(limit: nat)
    ensures
        reaches::<M>(Seq::empty(), M::default_view(), limit),
{
}

/// Each part of a message is no longer than the whole.
pub proof fn lemma_parts_fit(a: Seq<wire::FieldView>, b: Seq<wire::FieldView>)
    ensures
        wire::fields_bytes(a + b).len() == wire::fields_bytes(a).len() + wire::fields_bytes(
            b,
        ).len(),
{
    wire::lemma_fields_bytes_add(a, b);
}

/// A payload is no longer than the message it stands in.
pub proof fn lemma_payload_fits(fields: Seq<wire::FieldView>, i: int)
    requires
        0 <= i < fields.len(),
    ensures
        fields[i].value matches wire::WireView::Bytes(b) ==> b.len() <= wire::fields_bytes(
            fields,
        ).len(),
    decreases fields.len(),
{
    reveal_with_fuel(wire::fields_bytes, 2);
    if i < fields.len() - 1 {
        assert(fields.drop_last()[i] == fields[i]);
        lemma_payload_fits(fields.drop_last(), i);
    }
}

/// Well-tagged fields of a message that is not too long can be written.
pub proof fn lemma_fitting_is_writable(fields: Seq<wire::FieldView>)
    requires
        well_tagged(fields),
        wire::fields_bytes(fields).len() <= u64::MAX,
    ensures
        wire::all_writable(fields),
{
    assert forall|i: int| 0 <= i < fields.len() implies wire::writable(#[trigger] fields[i]) by {
        lemma_payload_fits(fields, i);
    }
}

/// Text read back from its UTF-8 bytes.
pub proof fn lemma_text_round_trip(s: Seq<char>)
    ensures
        valid_utf8(encode_utf8(s)),
        decode_utf8(encode_utf8(s)) == s,
{
    encode_utf8_valid_utf8(s);
    encode_utf8_decode_utf8(s);
}

/// A signed number read back from its sign-extended varint.
pub proof fn lemma_int32_round_trip(n: i32)
    ensures
        (n as i64 as u64) as i32 == n,
{
    assert((n as i64 as u64) as i32 == n) by (bit_vector);
}

/// An unsigned number read back from its varint.
pub proof fn lemma_uint32_round_trip(n: u32)
    ensures
        (n as u64) as u32 == n,
{
    assert((n as u64) as u32 == n) by (bit_vector);
}

/// An embedded message read back from its encoding.
pub proof fn lemma_message_round_trip<M: Message>(v: M::V, limit: nat)
    requires
        encoding::<M>(v).len() <= u64::MAX,
        limit >= M::depth() + 1,
    ensures
        as_message::<M>(None, wire::WireView::Bytes(encoding::<M>(v)), limit) == Some(v),
{
    law_decode_encode::<M>(v, (limit - 1) as nat);
}

/// Reads a message from its encoding.
pub fn decode<M: Message>(bytes: &[u8], limit: u32) -> (r: Result<M, WireError>)
    ensures
        r is Ok <==> decoded::<M>(bytes@, limit as nat) is Some,
        r matches Ok(m) ==> decoded::<M>(bytes@, limit as nat) == Some(m@),
{
    let mut m = M::empty();
    match merge_bytes::<M>(&mut m, bytes, limit) {
        Ok(()) => Ok(m),
        Err(e) => Err(e),
    }
}

/// Merges the fields of an encoding into a message.
pub fn merge_bytes<M: Message>(m: &mut M, bytes: &[u8], limit: u32) -> (r: Result<(), WireError>)
    ensures
        r is Ok <==> merged::<M>(old(m)@, bytes@, limit as nat) is Some,
        r is Ok ==> merged::<M>(old(m)@, bytes@, limit as nat) == Some(final(m)@),
{
    proof {
        reveal(merged);
    }
    let fields = match wire::parse_fields(bytes, limit) {
        Ok(fields) => fields,
        Err(e) => return Err(e),
    };
    let ghost start = m@;
    let ghost all = order::views(fields@);
    let mut i: usize = 0;
    assert(all.take(0) =~= Seq::empty());
    while i < fields.len()
        invariant
            i <= fields@.len(),
            all == order::views(fields@),
            merge_all::<M>(start, all.take(i as int), limit as nat) == Some(m@),
            start == old(m)@,
            wire::fields_from(bytes@, limit as nat) == Some(all),
        decreases fields@.len() - i,
    {
        proof {
            assert(all.take(i + 1).drop_last() =~= all.take(i as int));
            assert(all.take(i + 1).last() == fields@[i as int]@);
        }
        match m.merge(&fields[i], limit) {
            Ok(()) => {},
            Err(e) => {
                proof {
                    reveal(merged);
                    lemma_merge_stays_none::<M>(start, all, i + 1, limit as nat);
                }
                return Err(e);
            },
        }
        i = i + 1;
    }
    proof {
        reveal(merged);
        assert(all.take(fields@.len() as int) =~= all);
    }
    Ok(())
}

proof fn lemma_merge_stays_none<M: Schema>(
    v: M::V,
    fields: Seq<wire::FieldView>,
    n: int,
    limit: nat,
)
    requires
        0 <= n <= fields.len(),
        merge_all::<M>(v, fields.take(n), limit) is None,
    ensures
        merge_all::<M>(v, fields, limit) is None,
{
    assert(fields =~= fields.take(n) + fields.skip(n));
    lemma_merge_all_add::<M>(v, fields.take(n), fields.skip(n), limit);
}

/// Writes a message.
pub fn encode<M: Message>(m: &M) -> (out: Vec<u8>)
    ensures
        out@ == encoding::<M>(m@),
{
    proof {
        reveal(encoding);
    }
    wire::encode_fields(&m.fields())
}

// ---------------------------------------------------------------------------
// Payloads
// ---------------------------------------------------------------------------

pub open spec fn as_bytes(value: wire::WireView) -> Option<Seq<u8>> {
    match value {
        wire::WireView::Bytes(b) => Some(b),
        _ => None,
    }
}

pub open spec fn as_text(value: wire::WireView) -> Option<Seq<char>> {
    match value {
        wire::WireView::Bytes(b) => if valid_utf8(b) {
            Some(decode_utf8(b))
        } else {
            None
        },
        _ => None,
    }
}

/// A signed 32-bit payload is the low half of the varint.
pub open spec fn as_int32(value: wire::WireView) -> Option<i32> {
    match value {
        wire::WireView::Varint(v) => Some(v as i32),
        _ => None,
    }
}

/// An unsigned 32-bit payload is the low half of the varint.
pub open spec fn as_uint32(value: wire::WireView) -> Option<u32> {
    match value {
        wire::WireView::Varint(v) => Some(v as u32),
        _ => None,
    }
}

/// A boolean payload is true where the varint is not zero.
pub open spec fn as_bool(value: wire::WireView) -> Option<bool> {
    match value {
        wire::WireView::Varint(v) => Some(v != 0),
        _ => None,
    }
}

/// An embedded message is merged into the one that was there before, if any.
pub open spec fn as_message<M: Schema>(
    current: Option<M::V>,
    value: wire::WireView,
    limit: nat,
) -> Option<M::V> {
    match value {
        wire::WireView::Bytes(b) => if limit == 0 {
            None
        } else {
            let start = match current {
                Some(v) => v,
                None => M::default_view(),
            };
            merged::<M>(start, b, (limit - 1) as nat)
        },
        _ => None,
    }
}

/// The view of an optional value.
pub open spec fn optional<T: View>(o: Option<T>) -> Option<T::V> {
    match o {
        Some(x) => Some(x@),
        None => None,
    }
}

/// Calls `String::from_utf8`, which checks that bytes are UTF-8 and takes them
/// as a string. Claimed: it succeeds exactly on valid UTF-8 and gives the text
/// that the bytes encode.
#[verifier::external_body]
pub(crate) fn string_from_utf8(bytes: Vec<u8>) -> (r: Result<String, std::string::FromUtf8Error>)
    ensures
        r is Ok <==> valid_utf8(bytes@),
        r matches Ok(s) ==> s@ == decode_utf8(bytes@),
{
    String::from_utf8(bytes)
}

/// Declares `std::string::FromUtf8Error`.
#[verifier::external_type_specification]
#[verifier::external_body]
pub struct ExFromUtf8Error(std::string::FromUtf8Error);

pub fn read_bytes(value: &WireValue) -> (r: Option<Vec<u8>>)
    ensures
        r is Some <==> as_bytes(value@) is Some,
        r matches Some(b) ==> as_bytes(value@) == Some(b@),
{
    match value {
        WireValue::Bytes(b) => {
            let copy = vstd::slice::slice_to_vec(b.as_slice());
            Some(copy)
        },
        _ => None,
    }
}

pub fn read_text(value: &WireValue) -> (r: Option<String>)
    ensures
        r is Some <==> as_text(value@) is Some,
        r matches Some(s) ==> as_text(value@) == Some(s@),
{
    match value {
        WireValue::Bytes(b) => {
            let copy = vstd::slice::slice_to_vec(b.as_slice());
            match string_from_utf8(copy) {
                Ok(s) => Some(s),
                Err(_) => None,
            }
        },
        _ => None,
    }
}

pub fn read_int32(value: &WireValue) -> (r: Option<i32>)
    ensures
        r == as_int32(value@),
{
    match value {
        WireValue::Varint(v) => Some(#[verifier::truncate] (*v as i32)),
        _ => None,
    }
}

pub fn read_uint32(value: &WireValue) -> (r: Option<u32>)
    ensures
        r == as_uint32(value@),
{
    match value {
        WireValue::Varint(v) => Some(#[verifier::truncate] (*v as u32)),
        _ => None,
    }
}

pub fn read_bool(value: &WireValue) -> (r: Option<bool>)
    ensures
        r == as_bool(value@),
{
    match value {
        WireValue::Varint(v) => Some(*v != 0),
        _ => None,
    }
}

pub fn read_message<M: Message>(current: Option<M>, value: &WireValue, limit: u32) -> (r: Option<M>)
    ensures
        r is Some <==> as_message::<M>(optional(current), value@, limit as nat) is Some,
        r matches Some(m) ==> as_message::<M>(optional(current), value@, limit as nat) == Some(m@),
{
    match value {
        WireValue::Bytes(b) => {
            if limit == 0 {
                return None;
            }
            let mut m = match current {
                Some(m) => m,
                None => M::empty(),
            };
            match merge_bytes::<M>(&mut m, b.as_slice(), limit - 1) {
                Ok(()) => Some(m),
                Err(_) => None,
            }
        },
        _ => None,
    }
}

// ---------------------------------------------------------------------------
// Writing fields; a field at its default value is left out
// ---------------------------------------------------------------------------

pub open spec fn bytes_field(tag: u32, b: Seq<u8>) -> Seq<wire::FieldView> {
    if b.len() == 0 {
        Seq::empty()
    } else {
        seq![wire::FieldView { tag, value: wire::WireView::Bytes(b) }]
    }
}

pub open spec fn text_field(tag: u32, s: Seq<char>) -> Seq<wire::FieldView> {
    if s.len() == 0 {
        Seq::empty()
    } else {
        seq![wire::FieldView { tag, value: wire::WireView::Bytes(encode_utf8(s)) }]
    }
}

pub open spec fn int32_field(tag: u32, n: i32) -> Seq<wire::FieldView> {
    if n == 0 {
        Seq::empty()
    } else {
        seq![wire::FieldView { tag, value: wire::WireView::Varint(n as i64 as u64) }]
    }
}

pub open spec fn uint32_field(tag: u32, n: u32) -> Seq<wire::FieldView> {
    if n == 0 {
        Seq::empty()
    } else {
        seq![wire::FieldView { tag, value: wire::WireView::Varint(n as u64) }]
    }
}

pub open spec fn bool_field(tag: u32, b: bool) -> Seq<wire::FieldView> {
    if b {
        seq![wire::FieldView { tag, value: wire::WireView::Varint(1) }]
    } else {
        Seq::empty()
    }
}

/// An embedded message, given by its encoding.
pub open spec fn message_field(tag: u32, b: Seq<u8>) -> Seq<wire::FieldView> {
    seq![wire::FieldView { tag, value: wire::WireView::Bytes(b) }]
}

/// An embedded message that may be absent.
pub open spec fn optional_field<M: Schema>(tag: u32, o: Option<M::V>) -> Seq<wire::FieldView> {
    match o {
        Some(v) => message_field(tag, encoding::<M>(v)),
        None => Seq::empty(),
    }
}

/// A repeated field, one entry per element.
pub open spec fn repeated_field(tag: u32, items: Seq<Seq<u8>>) -> Seq<wire::FieldView> {
    Seq::new(
        items.len(),
        |i: int| wire::FieldView { tag, value: wire::WireView::Bytes(items[i]) },
    )
}

/// The encodings of embedded messages.
pub open spec fn encodings<M: Schema>(vs: Seq<M::V>) -> Seq<Seq<u8>> {
    Seq::new(vs.len(), |i: int| encoding::<M>(vs[i]))
}

/// The UTF-8 bytes of each text.
pub open spec fn texts(ss: Seq<Seq<char>>) -> Seq<Seq<u8>> {
    Seq::new(ss.len(), |i: int| encode_utf8(ss[i]))
}

fn push_field(out: &mut Vec<Field>, field: Field)
    requires
        wire::all_writable(order::views(old(out)@)),
        wire::writable(field@),
    ensures
        order::views(final(out)@) == order::views(old(out)@).push(field@),
        wire::all_writable(order::views(final(out)@)),
{
    out.push(field);
    assert(order::views(out@) =~= order::views(old(out)@).push(field@));
}

fn push_payload(out: &mut Vec<Field>, tag: u32, bytes: Vec<u8>)
    requires
        wire::all_writable(order::views(old(out)@)),
        1 <= tag < 0x2000_0000,
    ensures
        order::views(final(out)@) == order::views(old(out)@) + message_field(tag, bytes@),
        wire::all_writable(order::views(final(out)@)),
{
    assert(bytes@.len() == bytes.len());
    push_field(out, Field { tag, value: WireValue::Bytes(bytes) });
    assert(order::views(out@) =~= order::views(old(out)@) + message_field(tag, bytes@));
}

pub fn push_bytes(out: &mut Vec<Field>, tag: u32, b: &Vec<u8>)
    requires
        wire::all_writable(order::views(old(out)@)),
        1 <= tag < 0x2000_0000,
    ensures
        order::views(final(out)@) == order::views(old(out)@) + bytes_field(tag, b@),
        wire::all_writable(order::views(final(out)@)),
{
    if b.len() > 0 {
        push_payload(out, tag, vstd::slice::slice_to_vec(b.as_slice()));
    }
    assert(order::views(out@) =~= order::views(old(out)@) + bytes_field(tag, b@));
}

pub fn push_text(out: &mut Vec<Field>, tag: u32, s: &String)
    requires
        wire::all_writable(order::views(old(out)@)),
        1 <= tag < 0x2000_0000,
    ensures
        order::views(final(out)@) == order::views(old(out)@) + text_field(tag, s@),
        wire::all_writable(order::views(final(out)@)),
{
    if !s.as_str().is_empty() {
        let bytes = vstd::slice::slice_to_vec(s.as_str().as_bytes());
        push_payload(out, tag, bytes);
    }
    assert(order::views(out@) =~= order::views(old(out)@) + text_field(tag, s@));
}

pub fn push_int32(out: &mut Vec<Field>, tag: u32, n: i32)
    requires
        wire::all_writable(order::views(old(out)@)),
        1 <= tag < 0x2000_0000,
    ensures
        order::views(final(out)@) == order::views(old(out)@) + int32_field(tag, n),
        wire::all_writable(order::views(final(out)@)),
{
    if n != 0 {
        let v: u64 = #[verifier::truncate] (n as i64 as u64);
        push_field(out, Field { tag, value: WireValue::Varint(v) });
    }
    assert(order::views(out@) =~= order::views(old(out)@) + int32_field(tag, n));
}

pub fn push_uint32(out: &mut Vec<Field>, tag: u32, n: u32)
    requires
        wire::all_writable(order::views(old(out)@)),
        1 <= tag < 0x2000_0000,
    ensures
        order::views(final(out)@) == order::views(old(out)@) + uint32_field(tag, n),
        wire::all_writable(order::views(final(out)@)),
{
    if n != 0 {
        push_field(out, Field { tag, value: WireValue::Varint(n as u64) });
    }
    assert(order::views(out@) =~= order::views(old(out)@) + uint32_field(tag, n));
}

pub fn push_bool(out: &mut Vec<Field>, tag: u32, b: bool)
    requires
        wire::all_writable(order::views(old(out)@)),
        1 <= tag < 0x2000_0000,
    ensures
        order::views(final(out)@) == order::views(old(out)@) + bool_field(tag, b),
        wire::all_writable(order::views(final(out)@)),
{
    if b {
        push_field(out, Field { tag, value: WireValue::Varint(1) });
    }
    assert(order::views(out@) =~= order::views(old(out)@) + bool_field(tag, b));
}

pub fn push_optional<M: Message>(out: &mut Vec<Field>, tag: u32, o: &Option<M>)
    requires
        wire::all_writable(order::views(old(out)@)),
        1 <= tag < 0x2000_0000,
    ensures
        order::views(final(out)@) == order::views(old(out)@) + optional_field::<M>(
            tag,
            optional(*o),
        ),
        wire::all_writable(order::views(final(out)@)),
{
    if let Some(m) = o {
        let bytes = encode(m);
        push_payload(out, tag, bytes);
    }
    assert(order::views(out@) =~= order::views(old(out)@) + optional_field::<M>(
        tag,
        optional(*o),
    ));
}

pub fn push_messages<M: Message>(out: &mut Vec<Field>, tag: u32, items: &Vec<M>)
    requires
        wire::all_writable(order::views(old(out)@)),
        1 <= tag < 0x2000_0000,
    ensures
        order::views(final(out)@) == order::views(old(out)@) + repeated_field(
            tag,
            encodings::<M>(order::views(items@)),
        ),
        wire::all_writable(order::views(final(out)@)),
{
    let ghost all = repeated_field(tag, encodings::<M>(order::views(items@)));
    let ghost start = order::views(out@);
    let mut i: usize = 0;
    assert(start + all.take(0) =~= start);
    while i < items.len()
        invariant
            i <= items@.len(),
            1 <= tag < 0x2000_0000,
            all == repeated_field(tag, encodings::<M>(order::views(items@))),
            order::views(out@) == start + all.take(i as int),
            wire::all_writable(order::views(out@)),
        decreases items@.len() - i,
    {
        let bytes = encode(&items[i]);
        push_payload(out, tag, bytes);
        assert(order::views(out@) =~= start + all.take(i + 1));
        i = i + 1;
    }
    assert(all.take(items@.len() as int) =~= all);
}

pub fn push_texts(out: &mut Vec<Field>, tag: u32, items: &Vec<String>)
    requires
        wire::all_writable(order::views(old(out)@)),
        1 <= tag < 0x2000_0000,
    ensures
        order::views(final(out)@) == order::views(old(out)@) + repeated_field(
            tag,
            texts(order::views(items@)),
        ),
        wire::all_writable(order::views(final(out)@)),
{
    let ghost all = repeated_field(tag, texts(order::views(items@)));
    let ghost start = order::views(out@);
    let mut i: usize = 0;
    assert(start + all.take(0) =~= start);
    while i < items.len()
        invariant
            i <= items@.len(),
            1 <= tag < 0x2000_0000,
            all == repeated_field(tag, texts(order::views(items@))),
            order::views(out@) == start + all.take(i as int),
            wire::all_writable(order::views(out@)),
        decreases items@.len() - i,
    {
        let bytes = vstd::slice::slice_to_vec(items[i].as_str().as_bytes());
        push_payload(out, tag, bytes);
        assert(order::views(out@) =~= start + all.take(i + 1));
        i = i + 1;
    }
    assert(all.take(items@.len() as int) =~= all);
}

pub fn push_byte_strings(out: &mut Vec<Field>, tag: u32, items: &Vec<Vec<u8>>)
    requires
        wire::all_writable(order::views(old(out)@)),
        1 <= tag < 0x2000_0000,
    ensures
        order::views(final(out)@) == order::views(old(out)@) + repeated_field(
            tag,
            order::views(items@),
        ),
        wire::all_writable(order::views(final(out)@)),
{
    let ghost all = repeated_field(tag, order::views(items@));
    let ghost start = order::views(out@);
    let mut i: usize = 0;
    assert(start + all.take(0) =~= start);
    while i < items.len()
        invariant
            i <= items@.len(),
            1 <= tag < 0x2000_0000,
            all == repeated_field(tag, order::views(items@)),
            order::views(out@) == start + all.take(i as int),
            wire::all_writable(order::views(out@)),
        decreases items@.len() - i,
    {
        push_payload(out, tag, vstd::slice::slice_to_vec(items[i].as_slice()));
        assert(order::views(out@) =~= start + all.take(i + 1));
        i = i + 1;
    }
    assert(all.take(items@.len() as int) =~= all);
}

// ---------------------------------------------------------------------------
// Laws
// ---------------------------------------------------------------------------

/// A field behind an encoding is merged into the value that the encoding stands for.
pub proof fn law_appended_field_is_merged<M: Message>(
    v: M::V,
    field: wire::FieldView,
    limit: nat,
)
    requires
        encoding::<M>(v).len() <= u64::MAX,
        wire::writable(field),
        limit >= M::depth(),
    ensures
        decoded::<M>(encoding::<M>(v) + wire::field_bytes(field), limit) == M::merge_field(
            v,
            field,
            limit,
        ),
{
    reveal(encoding);
    reveal(merged);
    M::merge_round_trip(v, limit);
    let fields = M::fields_of(v);
    let all = fields.push(field);
    assert(wire::fields_bytes(all) == wire::fields_bytes(fields) + wire::field_bytes(field)) by {
        reveal_with_fuel(wire::fields_bytes, 2);
        assert(all.drop_last() =~= fields);
    }
    assert forall|i: int| 0 <= i < all.len() implies wire::writable(#[trigger] all[i]) by {
        if i < fields.len() {
            assert(all[i] == fields[i]);
        }
    }
    wire::law_fields_round_trip(all, limit);
    assert(all.drop_last() =~= fields);
    assert(all.last() == field);
}

/// A payload is read by the type that its field has. Byte strings are bytes, texts where
/// they are UTF-8, and embedded messages; varints are numbers and flags. A payload of
/// another type is not read at all.
pub proof fn law_payload_is_read_by_type(b: Seq<u8>, s: Seq<char>, n: u64, k: i32, w: u32)
    ensures
        as_bytes(wire::WireView::Bytes(b)) == Some(b),
        as_bytes(wire::WireView::Varint(n)) is None,
        as_text(wire::WireView::Bytes(encode_utf8(s))) == Some(s),
        as_text(wire::WireView::Bytes(b)) is Some <==> valid_utf8(b),
        as_text(wire::WireView::Varint(n)) is None,
        as_int32(wire::WireView::Varint(k as i64 as u64)) == Some(k),
        as_int32(wire::WireView::Bytes(b)) is None,
        as_uint32(wire::WireView::Varint(w as u64)) == Some(w),
        as_uint32(wire::WireView::Bytes(b)) is None,
        as_bool(wire::WireView::Varint(n)) == Some(n != 0),
        as_bool(wire::WireView::Bytes(b)) is None,
{
    lemma_text_round_trip(s);
    lemma_int32_round_trip(k);
    lemma_uint32_round_trip(w);
}

/// An embedded message that is read again is merged into the one that was there, field
/// by field; the first one is the message itself. Nothing is embedded in a varint, and
/// nothing too deep.
pub proof fn law_embedded_messages_are_merged<M: Message>(
    v: M::V,
    w: M::V,
    field: wire::FieldView,
    n: u64,
    limit: nat,
)
    requires
        encoding::<M>(w).len() <= u64::MAX,
        wire::writable(field),
        limit > M::depth(),
    ensures
        as_message::<M>(None, wire::WireView::Bytes(encoding::<M>(w)), limit) == Some(w),
        as_message::<M>(Some(v), wire::WireView::Bytes(Seq::empty()), limit) == Some(v),
        as_message::<M>(Some(v), wire::WireView::Bytes(wire::field_bytes(field)), limit)
            == M::merge_field(v, field, (limit - 1) as nat),
        as_message::<M>(Some(v), wire::WireView::Varint(n), limit) is None,
        as_message::<M>(Some(v), wire::WireView::Bytes(encoding::<M>(w)), 0) is None,
{
    law_decode_encode::<M>(w, (limit - 1) as nat);
    reveal(merged);
    let none = Seq::<u8>::empty();
    assert(wire::fields_from(none, (limit - 1) as nat) == Some(Seq::<wire::FieldView>::empty()));
    let one = seq![field];
    assert(M::depth() >= 1) by {
        reveal(encoding);
        M::merge_round_trip(w, limit);
    }
    assert(wire::fields_bytes(one) == wire::field_bytes(field)) by {
        reveal_with_fuel(wire::fields_bytes, 2);
        assert(one.drop_last() =~= Seq::<wire::FieldView>::empty());
        assert(wire::fields_bytes(one) =~= wire::field_bytes(field));
    }
    assert forall|i: int| 0 <= i < one.len() implies wire::writable(#[trigger] one[i]) by {}
    wire::law_fields_round_trip(one, (limit - 1) as nat);
    assert(one.drop_last() =~= Seq::<wire::FieldView>::empty());
    reveal_with_fuel(merge_all, 2);
}

} // verus!
