//! Length-prefixed byte strings: the encoding under every commitment.
//!
//! A byte string is written as its length, eight bytes in little-endian order,
//! and then the bytes. A list of such strings can be read back without doubt,
//! as long as it is known how many there are.

use crate::order;
use vstd::prelude::*;

verus! {

/// The low `width` bytes of `n`, least significant first.
pub open spec fn le_bytes(n: nat, width: nat) -> Seq<u8>
    decreases width,
{
    if width == 0 {
        Seq::empty()
    } else {
        seq![(n % 256) as u8] + le_bytes(n / 256, (width - 1) as nat)
    }
}

/// A byte string behind its length.
pub open spec fn prefixed(b: Seq<u8>) -> Seq<u8> {
    le_bytes(b.len(), 8) + b
}

/// Several byte strings, each behind its length.
pub open spec fn record(parts: Seq<Seq<u8>>) -> Seq<u8>
    decreases parts.len(),
{
    if parts.len() == 0 {
        Seq::empty()
    } else {
        record(parts.drop_last()) + prefixed(parts.last())
    }
}

/// Several records, one after the other.
pub open spec fn records(items: Seq<Seq<Seq<u8>>>) -> Seq<u8>
    decreases items.len(),
{
    if items.len() == 0 {
        Seq::empty()
    } else {
        records(items.drop_last()) + record(items.last())
    }
}

/// Several records behind their number.
pub open spec fn counted(items: Seq<Seq<Seq<u8>>>) -> Seq<u8> {
    le_bytes(items.len(), 8) + records(items)
}

/// Every part has a length that eight bytes can hold.
pub open spec fn fits(parts: Seq<Seq<u8>>) -> bool {
    forall|i: int| 0 <= i < parts.len() ==> (#[trigger] parts[i]).len() <= u64::MAX
}

/// Every record has `k` parts, each of a length that eight bytes can hold.
pub open spec fn fitting(items: Seq<Seq<Seq<u8>>>, k: nat) -> bool {
    forall|i: int| 0 <= i < items.len() ==> (#[trigger] items[i]).len() == k && fits(items[i])
}

/// What `width` bytes cannot hold.
pub open spec fn le_bound(width: nat) -> nat
    decreases width,
{
    if width == 0 {
        1
    } else {
        256 * le_bound((width - 1) as nat)
    }
}

pub proof fn lemma_le_bounds()
    ensures
        le_bound(1) == 0x100,
        le_bound(4) == 0x1_0000_0000,
        le_bound(7) == 0x100_0000_0000_0000,
        le_bound(8) == 0x1_0000_0000_0000_0000,
{
    reveal_with_fuel(le_bound, 9);
    assert(le_bound(4) == 0x1_0000_0000);
    assert(le_bound(6) == 0x1_0000_0000_0000);
    assert(le_bound(7) == 0x100_0000_0000_0000);
}

pub proof fn lemma_le_bytes_len(n: nat, width: nat)
    ensures
        le_bytes(n, width).len() == width,
    decreases width,
{
    if width > 0 {
        lemma_le_bytes_len(n / 256, (width - 1) as nat);
    }
}

/// The little-endian form determines the number.
pub proof fn lemma_le_bytes_injective(a: nat, b: nat, width: nat)
    requires
        a < le_bound(width),
        b < le_bound(width),
        le_bytes(a, width) == le_bytes(b, width),
    ensures
        a == b,
    decreases width,
{
    if width > 0 {
        let x = le_bytes(a, width);
        let y = le_bytes(b, width);
        assert(x[0] == (a % 256) as u8);
        assert(y[0] == (b % 256) as u8);
        assert(x.drop_first() =~= le_bytes(a / 256, (width - 1) as nat));
        assert(y.drop_first() =~= le_bytes(b / 256, (width - 1) as nat));
        lemma_le_bytes_injective(a / 256, b / 256, (width - 1) as nat);
    }
}

/// Two sequences that begin with parts of one length and agree, agree part by
/// part.
pub proof fn lemma_split_at(a: Seq<u8>, b: Seq<u8>, x: Seq<u8>, y: Seq<u8>)
    requires
        a.len() == b.len(),
        a + x == b + y,
    ensures
        a == b,
        x == y,
{
    assert(a =~= (a + x).take(a.len() as int));
    assert(b =~= (b + y).take(a.len() as int));
    assert(x =~= (a + x).skip(a.len() as int));
    assert(y =~= (b + y).skip(a.len() as int));
}

/// Six parts, grouped from the left and from the right.
pub proof fn lemma_regroup(
    a: Seq<u8>,
    b: Seq<u8>,
    c: Seq<u8>,
    d: Seq<u8>,
    e: Seq<u8>,
    f: Seq<u8>,
)
    ensures
        a + b + c + d + e + f == a + (b + (c + (d + (e + f)))),
{
    assert(a + b + c + d + e + f =~= a + (b + (c + (d + (e + f)))));
}

/// A number in front of other bytes can be read back.
pub proof fn lemma_number_split(a: nat, b: nat, width: nat, x: Seq<u8>, y: Seq<u8>)
    requires
        a < le_bound(width),
        b < le_bound(width),
        le_bytes(a, width) + x == le_bytes(b, width) + y,
    ensures
        a == b,
        x == y,
{
    lemma_le_bytes_len(a, width);
    lemma_le_bytes_len(b, width);
    lemma_split_at(le_bytes(a, width), le_bytes(b, width), x, y);
    lemma_le_bytes_injective(a, b, width);
}

/// A length-prefixed string in front of other bytes can be read back.
pub proof fn lemma_prefixed_split(a: Seq<u8>, b: Seq<u8>, x: Seq<u8>, y: Seq<u8>)
    requires
        a.len() <= u64::MAX,
        b.len() <= u64::MAX,
        prefixed(a) + x == prefixed(b) + y,
    ensures
        a == b,
        x == y,
{
    lemma_le_bounds();
    assert(prefixed(a) + x =~= le_bytes(a.len(), 8) + (a + x));
    assert(prefixed(b) + y =~= le_bytes(b.len(), 8) + (b + y));
    lemma_number_split(a.len(), b.len(), 8, a + x, b + y);
    lemma_split_at(a, b, x, y);
}

/// A record in front of other bytes can be read back, where its number of parts
/// is known.
pub proof fn lemma_record_split(a: Seq<Seq<u8>>, b: Seq<Seq<u8>>, x: Seq<u8>, y: Seq<u8>)
    requires
        a.len() == b.len(),
        fits(a),
        fits(b),
        record(a) + x == record(b) + y,
    ensures
        a == b,
        x == y,
    decreases a.len(),
{
    if a.len() == 0 {
        assert(a =~= b);
        assert(record(a) + x =~= x);
        assert(record(b) + y =~= y);
    } else {
        let ai = a.drop_last();
        let bi = b.drop_last();
        assert(a.last() == a[a.len() - 1]);
        assert(b.last() == b[b.len() - 1]);
        assert(fits(ai)) by {
            assert forall|i: int| 0 <= i < ai.len() implies (#[trigger] ai[i]).len() <= u64::MAX by {
                assert(ai[i] == a[i]);
            }
        }
        assert(fits(bi)) by {
            assert forall|i: int| 0 <= i < bi.len() implies (#[trigger] bi[i]).len() <= u64::MAX by {
                assert(bi[i] == b[i]);
            }
        }
        assert(record(a) + x =~= record(ai) + (prefixed(a.last()) + x));
        assert(record(b) + y =~= record(bi) + (prefixed(b.last()) + y));
        lemma_record_split(ai, bi, prefixed(a.last()) + x, prefixed(b.last()) + y);
        lemma_prefixed_split(a.last(), b.last(), x, y);
        assert(a =~= ai.push(a.last()));
        assert(b =~= bi.push(b.last()));
    }
}

/// Records in front of other bytes can be read back, where their number and
/// their number of parts are known.
pub proof fn lemma_records_split(
    a: Seq<Seq<Seq<u8>>>,
    b: Seq<Seq<Seq<u8>>>,
    k: nat,
    x: Seq<u8>,
    y: Seq<u8>,
)
    requires
        a.len() == b.len(),
        fitting(a, k),
        fitting(b, k),
        records(a) + x == records(b) + y,
    ensures
        a == b,
        x == y,
    decreases a.len(),
{
    if a.len() == 0 {
        assert(a =~= b);
        assert(records(a) + x =~= x);
        assert(records(b) + y =~= y);
    } else {
        let ai = a.drop_last();
        let bi = b.drop_last();
        assert(a.last() == a[a.len() - 1]);
        assert(b.last() == b[b.len() - 1]);
        assert(fitting(ai, k)) by {
            assert forall|i: int| 0 <= i < ai.len() implies (#[trigger] ai[i]).len() == k && fits(
                ai[i],
            ) by {
                assert(ai[i] == a[i]);
            }
        }
        assert(fitting(bi, k)) by {
            assert forall|i: int| 0 <= i < bi.len() implies (#[trigger] bi[i]).len() == k && fits(
                bi[i],
            ) by {
                assert(bi[i] == b[i]);
            }
        }
        assert(records(a) + x =~= records(ai) + (record(a.last()) + x));
        assert(records(b) + y =~= records(bi) + (record(b.last()) + y));
        lemma_records_split(ai, bi, k, record(a.last()) + x, record(b.last()) + y);
        lemma_record_split(a.last(), b.last(), x, y);
        assert(a =~= ai.push(a.last()));
        assert(b =~= bi.push(b.last()));
    }
}

/// Records behind their number, in front of other bytes, can be read back.
pub proof fn lemma_counted_split(
    a: Seq<Seq<Seq<u8>>>,
    b: Seq<Seq<Seq<u8>>>,
    k: nat,
    x: Seq<u8>,
    y: Seq<u8>,
)
    requires
        a.len() <= u64::MAX,
        b.len() <= u64::MAX,
        fitting(a, k),
        fitting(b, k),
        counted(a) + x == counted(b) + y,
    ensures
        a == b,
        x == y,
{
    lemma_le_bounds();
    assert(counted(a) + x =~= le_bytes(a.len(), 8) + (records(a) + x));
    assert(counted(b) + y =~= le_bytes(b.len(), 8) + (records(b) + y));
    lemma_number_split(a.len(), b.len(), 8, records(a) + x, records(b) + y);
    lemma_records_split(a, b, k, x, y);
}

/// The high bytes of a small number are zero.
pub proof fn lemma_le_bytes_zero(n: nat, width: nat, i: nat)
    requires
        i < width,
        n < le_bound(i),
    ensures
        le_bytes(n, width)[i as int] == 0,
    decreases width,
{
    if i > 0 {
        lemma_le_bytes_len(n / 256, (width - 1) as nat);
        lemma_le_bytes_zero(n / 256, (width - 1) as nat, (i - 1) as nat);
        assert(le_bytes(n, width)[i as int] == le_bytes(n / 256, (width - 1) as nat)[i - 1]);
    }
}

/// A record is told from a counted list: where neither the first part of the
/// record nor that of the list's first item holds a zero byte, and both are shorter
/// than seven bytes can say, the two do not begin alike.
pub proof fn lemma_record_is_no_counted_list(
    first: Seq<u8>,
    second: Seq<u8>,
    x: Seq<u8>,
    count: nat,
    item: Seq<u8>,
    y: Seq<u8>,
)
    requires
        0 < count < le_bound(7),
        first.len() < le_bound(7),
        second.len() < le_bound(7),
        item.len() < le_bound(7),
        !first.contains(0),
        !item.contains(0),
    ensures
        prefixed(first) + (prefixed(second) + x) != le_bytes(count, 8) + (prefixed(item) + y),
{
    let left = prefixed(first) + (prefixed(second) + x);
    let right = le_bytes(count, 8) + (prefixed(item) + y);
    if left == right {
        assert(le_bound(8) == 256 * le_bound(7));
        let k = first.len();
        let length = le_bytes(item.len(), 8);
        lemma_le_bytes_len(k, 8);
        lemma_le_bytes_len(count, 8);
        lemma_le_bytes_len(item.len(), 8);
        lemma_le_bytes_len(second.len(), 8);
        assert(left =~= le_bytes(k, 8) + (first + (prefixed(second) + x)));
        lemma_number_split(k, count, 8, first + (prefixed(second) + x), prefixed(item) + y);
        let rest = first + (prefixed(second) + x);
        assert(rest == prefixed(item) + y);
        assert forall|i: int| 0 <= i < k implies rest[i] == first[i] && first[i] != 0 by {
            assert(first.contains(first[i]));
        }
        assert forall|i: int| 0 <= i < 8 implies (prefixed(item) + y)[i] == length[i] by {}
        if k >= 8 {
            lemma_le_bytes_zero(item.len(), 8, 7);
            assert(rest[7] == 0);
        } else {
            // The last byte of the second part's length.
            lemma_le_bytes_zero(second.len(), 8, 7);
            assert(rest[k as int + 7] == le_bytes(second.len(), 8)[7]);
            if item.len() >= k {
                assert((prefixed(item) + y)[k as int + 7] == item[k - 1]);
                assert(item.contains(item[k - 1]));
            } else {
                reveal_with_fuel(le_bound, 3);
                assert(le_bound(1) == 256);
                if k >= 2 {
                    lemma_le_bytes_zero(item.len(), 8, 1);
                    assert(rest[1] == 0);
                } else {
                    lemma_le_bytes_zero(item.len(), 8, 0);
                    assert(rest[0] == 0);
                }
            }
        }
    }
}

/// The records of a list, taken apart at a position.
pub proof fn lemma_records_apart(items: Seq<Seq<Seq<u8>>>, n: int)
    requires
        0 <= n <= items.len(),
    ensures
        records(items) == records(items.take(n)) + records(items.skip(n)),
    decreases items.len(),
{
    if n == items.len() {
        assert(items.take(n) =~= items);
        assert(items.skip(n) =~= Seq::empty());
        assert(records(items) =~= records(items.take(n)) + records(items.skip(n)));
    } else {
        let init = items.drop_last();
        lemma_records_apart(init, n);
        assert(init.take(n) =~= items.take(n));
        assert(items.skip(n).drop_last() =~= init.skip(n));
        assert(items.skip(n).last() == items.last());
        assert(records(items) =~= records(items.take(n)) + records(items.skip(n)));
    }
}

/// The parts of a record that is not too long are not too long.
pub proof fn lemma_record_fits(parts: Seq<Seq<u8>>)
    requires
        record(parts).len() <= u64::MAX,
    ensures
        fits(parts),
        parts.len() <= record(parts).len(),
    decreases parts.len(),
{
    if parts.len() > 0 {
        lemma_le_bytes_len(parts.last().len(), 8);
        lemma_record_fits(parts.drop_last());
        assert forall|i: int| 0 <= i < parts.len() implies (#[trigger] parts[i]).len()
            <= u64::MAX by {
            if i < parts.len() - 1 {
                assert(parts.drop_last()[i] == parts[i]);
            }
        }
    }
}

/// The records in a list that is not too long are not too many and not too
/// long.
pub proof fn lemma_records_fit(items: Seq<Seq<Seq<u8>>>, k: nat)
    requires
        k >= 1,
        forall|i: int| 0 <= i < items.len() ==> (#[trigger] items[i]).len() == k,
        records(items).len() <= u64::MAX,
    ensures
        fitting(items, k),
        items.len() <= u64::MAX,
        items.len() <= records(items).len(),
    decreases items.len(),
{
    if items.len() > 0 {
        let init = items.drop_last();
        assert(items.last() == items[items.len() - 1]);
        assert forall|i: int| 0 <= i < init.len() implies (#[trigger] init[i]).len() == k by {
            assert(init[i] == items[i]);
        }
        lemma_records_fit(init, k);
        lemma_record_fits(items.last());
        assert forall|i: int| 0 <= i < items.len() implies (#[trigger] items[i]).len() == k && fits(
            items[i],
        ) by {
            if i < items.len() - 1 {
                assert(init[i] == items[i]);
            }
        }
    }
}

/// As [`lemma_records_fit`], for records behind their number.
pub proof fn lemma_counted_fits(items: Seq<Seq<Seq<u8>>>, k: nat)
    requires
        k >= 1,
        forall|i: int| 0 <= i < items.len() ==> (#[trigger] items[i]).len() == k,
        counted(items).len() <= u64::MAX,
    ensures
        fitting(items, k),
        items.len() <= u64::MAX,
{
    lemma_le_bytes_len(items.len(), 8);
    lemma_records_fit(items, k);
}

/// One more part in a record.
pub proof fn lemma_record_push(parts: Seq<Seq<u8>>, part: Seq<u8>)
    ensures
        record(parts.push(part)) == record(parts) + prefixed(part),
        record(Seq::empty()) == Seq::<u8>::empty(),
{
    assert(parts.push(part).drop_last() =~= parts);
}

/// One more record.
pub proof fn lemma_records_push(items: Seq<Seq<Seq<u8>>>, item: Seq<Seq<u8>>)
    ensures
        records(items.push(item)) == records(items) + record(item),
        records(Seq::empty()) == Seq::<u8>::empty(),
{
    assert(items.push(item).drop_last() =~= items);
}

/// A value that stands in a commitment as a record.
pub trait Recorded: View + Sized {
    /// The parts of the record.
    spec fn record_of(v: Self::V) -> Seq<Seq<u8>>;

    /// Appends the record.
    fn push_record(&self, out: &mut Vec<u8>)
        ensures
            final(out)@ == old(out)@ + record(Self::record_of(self@)),
    ;
}

/// The records of several values.
pub open spec fn records_of<T: Recorded>(vs: Seq<T::V>) -> Seq<Seq<Seq<u8>>> {
    Seq::new(vs.len(), |i: int| T::record_of(vs[i]))
}

/// Appends the records of several values.
pub fn push_records<T: Recorded>(out: &mut Vec<u8>, items: &Vec<T>)
    ensures
        final(out)@ == old(out)@ + records(records_of::<T>(order::views(items@))),
{
    let ghost all = records_of::<T>(order::views(items@));
    let ghost start = out@;
    let mut i: usize = 0;
    proof {
        assert(all.take(0) =~= Seq::empty());
        assert(start + records(all.take(0)) =~= start);
    }
    while i < items.len()
        invariant
            i <= items@.len(),
            all == records_of::<T>(order::views(items@)),
            out@ == start + records(all.take(i as int)),
        decreases items@.len() - i,
    {
        items[i].push_record(out);
        proof {
            let item = T::record_of(items@[i as int]@);
            lemma_records_push(all.take(i as int), item);
            assert(all.take(i as int).push(item) =~= all.take(i + 1));
            assert(out@ =~= start + records(all.take(i + 1)));
        }
        i = i + 1;
    }
    assert(all.take(items@.len() as int) =~= all);
}

/// Appends the records of several values behind their number.
pub fn push_counted<T: Recorded>(out: &mut Vec<u8>, items: &Vec<T>)
    ensures
        final(out)@ == old(out)@ + counted(records_of::<T>(order::views(items@))),
{
    push_len(out, items.len());
    push_records(out, items);
    assert(out@ =~= old(out)@ + counted(records_of::<T>(order::views(items@))));
}

/// Appends the low `width` bytes of a number.
pub fn push_le(out: &mut Vec<u8>, n: u64, width: u32)
    ensures
        final(out)@ == old(out)@ + le_bytes(n as nat, width as nat),
    decreases width,
{
    if width > 0 {
        out.push((n % 256) as u8);
        push_le(out, n / 256, width - 1);
    }
    assert(out@ =~= old(out)@ + le_bytes(n as nat, width as nat));
}

/// Appends a length.
pub fn push_len(out: &mut Vec<u8>, len: usize)
    ensures
        final(out)@ == old(out)@ + le_bytes(len as nat, 8),
{
    push_le(out, len as u64, 8);
}

/// Appends a byte string behind its length.
pub fn push_prefixed(out: &mut Vec<u8>, bytes: &[u8])
    ensures
        final(out)@ == old(out)@ + prefixed(bytes@),
{
    push_len(out, bytes.len());
    out.extend_from_slice(bytes);
    assert(out@ =~= old(out)@ + prefixed(bytes@));
}

/// Appends a text behind its length in bytes.
pub fn push_text(out: &mut Vec<u8>, s: &String)
    ensures
        final(out)@ == old(out)@ + prefixed(vstd::utf8::encode_utf8(s@)),
{
    push_prefixed(out, s.as_str().as_bytes());
}

// ---------------------------------------------------------------------------
// Laws
// ---------------------------------------------------------------------------

/// The little-endian form of a number is its digits to the base 256, least significant
/// first: the `i`-th byte is the `i`-th digit.
pub proof fn law_little_endian_bytes_are_the_digits(n: nat, width: nat, i: nat)
    requires
        i < width,
    ensures
        le_bytes(n, width).len() == width,
        le_bytes(n, width)[i as int] as int == (n as int / vstd::arithmetic::power::pow(256, i)) % 256,
    decreases width,
{
    lemma_le_bytes_len(n, width);
    let rest = le_bytes(n / 256, (width - 1) as nat);
    if i == 0 {
        vstd::arithmetic::power::lemma_pow0(256);
        assert(n as int / vstd::arithmetic::power::pow(256, 0) == n as int);
    } else {
        let j = (i - 1) as nat;
        law_little_endian_bytes_are_the_digits(n / 256, (width - 1) as nat, j);
        assert(le_bytes(n, width)[i as int] == rest[j as int]);
        vstd::arithmetic::power::lemma_pow_positive(256, j);
        assert(vstd::arithmetic::power::pow(256, i) == 256 * vstd::arithmetic::power::pow(256, j)) by {
            reveal(vstd::arithmetic::power::pow);
        }
        vstd::arithmetic::div_mod::lemma_div_denominator(n as int, 256, vstd::arithmetic::power::pow(256, j));
    }
}

/// A byte string stands behind its length, and nothing else is added.
pub proof fn law_prefixed_is_length_and_bytes(b: Seq<u8>)
    ensures
        prefixed(b).len() == b.len() + 8,
        prefixed(b).take(8) == le_bytes(b.len(), 8),
        prefixed(b).skip(8) == b,
{
    lemma_le_bytes_len(b.len(), 8);
    assert(prefixed(b).take(8) =~= le_bytes(b.len(), 8));
    assert(prefixed(b).skip(8) =~= b);
}

proof fn lemma_record_add(a: Seq<Seq<u8>>, b: Seq<Seq<u8>>)
    ensures
        record(a + b) == record(a) + record(b),
    decreases b.len(),
{
    if b.len() == 0 {
        assert(a + b =~= a);
        assert(record(a) =~= record(a) + record(b));
    } else {
        assert((a + b).drop_last() =~= a + b.drop_last());
        assert((a + b).last() == b.last());
        lemma_record_add(a, b.drop_last());
        assert(record(a + b) =~= record(a) + record(b));
    }
}

proof fn lemma_records_add(a: Seq<Seq<Seq<u8>>>, b: Seq<Seq<Seq<u8>>>)
    ensures
        records(a + b) == records(a) + records(b),
    decreases b.len(),
{
    if b.len() == 0 {
        assert(a + b =~= a);
        assert(records(a) =~= records(a) + records(b));
    } else {
        assert((a + b).drop_last() =~= a + b.drop_last());
        assert((a + b).last() == b.last());
        lemma_records_add(a, b.drop_last());
        assert(records(a + b) =~= records(a) + records(b));
    }
}

/// Records are written part by part, and lists of them record by record: what is
/// written of two in a row is what is written of the first and then of the second. A
/// single part is the part behind its length; a single record is the record.
pub proof fn law_parts_follow_one_another(
    a: Seq<Seq<u8>>,
    b: Seq<Seq<u8>>,
    x: Seq<Seq<Seq<u8>>>,
    y: Seq<Seq<Seq<u8>>>,
    part: Seq<u8>,
)
    ensures
        record(Seq::empty()) == Seq::<u8>::empty(),
        record(seq![part]) == prefixed(part),
        record(a + b) == record(a) + record(b),
        records(Seq::empty()) == Seq::<u8>::empty(),
        records(seq![a]) == record(a),
        records(x + y) == records(x) + records(y),
        counted(x) == le_bytes(x.len(), 8) + records(x),
{
    lemma_record_add(a, b);
    lemma_records_add(x, y);
    reveal_with_fuel(record, 2);
    reveal_with_fuel(records, 2);
    assert(seq![part].drop_last() =~= Seq::<Seq<u8>>::empty());
    assert(record(seq![part]) =~= prefixed(part));
    assert(seq![a].drop_last() =~= Seq::<Seq<Seq<u8>>>::empty());
    assert(records(seq![a]) =~= record(a));
}

} // verus!
