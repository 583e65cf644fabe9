//! Byte-wise ordering of strings and the stable sort behind every canonical
//! encoding.
//!
//! Names are ordered by their UTF-8 bytes. A sort key is a short sequence of
//! names, compared name by name, so that a record can be ordered by several of
//! its fields at once.

use vstd::prelude::*;

verus! {

/// The views of a sequence of values.
pub open spec fn views<T: View>(s: Seq<T>) -> Seq<T::V> {
    s.map_values(|x: T| x@)
}

/// `a` comes strictly before `b` in byte-wise lexicographic order.
pub open spec fn bytes_lt(a: Seq<u8>, b: Seq<u8>) -> bool
    decreases a.len(),
{
    if b.len() == 0 {
        false
    } else if a.len() == 0 {
        true
    } else if a[0] != b[0] {
        a[0] < b[0]
    } else {
        bytes_lt(a.drop_first(), b.drop_first())
    }
}

/// `a` comes strictly before `b`, comparing name by name.
pub open spec fn key_lt(a: Seq<Seq<u8>>, b: Seq<Seq<u8>>) -> bool
    decreases a.len(),
{
    if b.len() == 0 {
        false
    } else if a.len() == 0 {
        true
    } else if a[0] != b[0] {
        bytes_lt(a[0], b[0])
    } else {
        key_lt(a.drop_first(), b.drop_first())
    }
}

/// Of two different byte strings exactly one comes first.
pub proof fn lemma_bytes_lt_total(a: Seq<u8>, b: Seq<u8>)
    ensures
        a == b ==> !bytes_lt(a, b) && !bytes_lt(b, a),
        a != b ==> (bytes_lt(a, b) <==> !bytes_lt(b, a)),
    decreases a.len(),
{
    if a.len() > 0 && b.len() > 0 && a[0] == b[0] {
        lemma_bytes_lt_total(a.drop_first(), b.drop_first());
        if a.drop_first() == b.drop_first() {
            assert(a =~= seq![a[0]] + a.drop_first());
            assert(b =~= seq![b[0]] + b.drop_first());
        }
    } else if a.len() == 0 && b.len() == 0 {
        assert(a =~= b);
    }
}

/// The byte-wise order is transitive.
pub proof fn lemma_bytes_lt_transitive(a: Seq<u8>, b: Seq<u8>, c: Seq<u8>)
    requires
        bytes_lt(a, b),
        bytes_lt(b, c),
    ensures
        bytes_lt(a, c),
    decreases a.len(),
{
    if a.len() > 0 && a[0] == b[0] && b[0] == c[0] {
        lemma_bytes_lt_transitive(a.drop_first(), b.drop_first(), c.drop_first());
    }
}

/// Of two different keys exactly one comes first.
pub proof fn lemma_key_lt_total(a: Seq<Seq<u8>>, b: Seq<Seq<u8>>)
    ensures
        a == b ==> !key_lt(a, b) && !key_lt(b, a),
        a != b ==> (key_lt(a, b) <==> !key_lt(b, a)),
    decreases a.len(),
{
    if a.len() > 0 && b.len() > 0 {
        lemma_bytes_lt_total(a[0], b[0]);
        if a[0] == b[0] {
            lemma_key_lt_total(a.drop_first(), b.drop_first());
            if a.drop_first() == b.drop_first() {
                assert(a =~= seq![a[0]] + a.drop_first());
                assert(b =~= seq![b[0]] + b.drop_first());
            }
        }
    } else if a.len() == 0 && b.len() == 0 {
        assert(a =~= b);
    }
}

/// The order on keys is transitive.
pub proof fn lemma_key_lt_transitive(a: Seq<Seq<u8>>, b: Seq<Seq<u8>>, c: Seq<Seq<u8>>)
    requires
        key_lt(a, b),
        key_lt(b, c),
    ensures
        key_lt(a, c),
    decreases a.len(),
{
    if a.len() > 0 {
        lemma_bytes_lt_total(a[0], b[0]);
        lemma_bytes_lt_total(b[0], c[0]);
        lemma_bytes_lt_total(a[0], c[0]);
        if a[0] == b[0] && b[0] == c[0] {
            lemma_key_lt_transitive(a.drop_first(), b.drop_first(), c.drop_first());
        } else if a[0] != b[0] && b[0] != c[0] {
            lemma_bytes_lt_transitive(a[0], b[0], c[0]);
            if a[0] == c[0] {
                lemma_bytes_lt_total(a[0], a[0]);
            }
        }
    }
}

/// Whether `a` comes strictly before `b` byte-wise.
pub fn bytes_before(a: &[u8], b: &[u8]) -> (r: bool)
    ensures
        r == bytes_lt(a@, b@),
{
    let mut i: usize = 0;
    proof {
        assert(a@.skip(0) =~= a@);
        assert(b@.skip(0) =~= b@);
    }
    while i < a.len() && i < b.len()
        invariant
            i <= a@.len(),
            i <= b@.len(),
            bytes_lt(a@, b@) == bytes_lt(a@.skip(i as int), b@.skip(i as int)),
        decreases a@.len() - i,
    {
        proof {
            assert(a@.skip(i as int).drop_first() =~= a@.skip(i + 1));
            assert(b@.skip(i as int).drop_first() =~= b@.skip(i + 1));
        }
        if a[i] != b[i] {
            return a[i] < b[i];
        }
        i = i + 1;
    }
    i < b.len()
}

/// Whether two byte strings are equal.
pub fn bytes_equal(a: &[u8], b: &[u8]) -> (r: bool)
    ensures
        r == (a@ == b@),
{
    if a.len() != b.len() {
        return false;
    }
    let mut i: usize = 0;
    while i < a.len()
        invariant
            i <= a@.len(),
            a@.len() == b@.len(),
            forall|j: int| 0 <= j < i ==> a@[j] == b@[j],
        decreases a@.len() - i,
    {
        if a[i] != b[i] {
            return false;
        }
        i = i + 1;
    }
    assert(a@ =~= b@);
    true
}

/// A record that is put in canonical order by a key made of its names.
pub trait Keyed: View + Sized {
    /// The names that the record is ordered by, most significant first.
    spec fn key_of(v: Self::V) -> Seq<Seq<u8>>;

    /// Whether this record's key comes strictly before the other's.
    fn precedes(&self, other: &Self) -> (r: bool)
        ensures
            r == key_lt(Self::key_of(self@), Self::key_of(other@)),
    ;

    /// A copy of the record.
    fn duplicate(&self) -> (r: Self)
        ensures
            r@ == self@,
    ;
}

/// `x` placed behind every record of the sorted `s` whose key does not come
/// after its own.
pub open spec fn insert_sorted<T: Keyed>(s: Seq<T::V>, x: T::V) -> Seq<T::V>
    decreases s.len(),
{
    if s.len() > 0 && key_lt(T::key_of(x), T::key_of(s.last())) {
        insert_sorted::<T>(s.drop_last(), x).push(s.last())
    } else {
        s.push(x)
    }
}

/// The records of `s` in key order, records with equal keys in their order in
/// `s`.
pub open spec fn sorted<T: Keyed>(s: Seq<T::V>) -> Seq<T::V>
    decreases s.len(),
{
    if s.len() == 0 {
        s
    } else {
        insert_sorted::<T>(sorted::<T>(s.drop_last()), s.last())
    }
}

/// No record of `s` comes after a later one.
pub open spec fn in_key_order<T: Keyed>(s: Seq<T::V>) -> bool {
    forall|i: int, j: int|
        0 <= i < j < s.len() ==> !key_lt(T::key_of(#[trigger] s[j]), T::key_of(#[trigger] s[i]))
}

/// No two different records of `s` have the same key.
pub open spec fn keys_determine<T: Keyed>(s: Seq<T::V>) -> bool {
    forall|i: int, j: int|
        0 <= i < s.len() && 0 <= j < s.len() && T::key_of(#[trigger] s[i]) == T::key_of(
            #[trigger] s[j],
        ) ==> s[i] == s[j]
}

proof fn lemma_insert_split<T: Keyed>(s: Seq<T::V>, x: T::V, p: int)
    requires
        0 <= p <= s.len(),
        forall|i: int| p <= i < s.len() ==> key_lt(T::key_of(x), T::key_of(#[trigger] s[i])),
        p > 0 ==> !key_lt(T::key_of(x), T::key_of(s[p - 1])),
    ensures
        insert_sorted::<T>(s, x) == s.insert(p, x),
    decreases s.len(),
{
    if s.len() > p {
        assert(s.last() == s[s.len() - 1]);
        assert forall|i: int| p <= i < s.drop_last().len() implies key_lt(
            T::key_of(x),
            T::key_of(#[trigger] s.drop_last()[i]),
        ) by {
            assert(s.drop_last()[i] == s[i]);
        }
        lemma_insert_split::<T>(s.drop_last(), x, p);
        assert(s.drop_last().insert(p, x).push(s.last()) =~= s.insert(p, x));
    } else {
        assert(s.push(x) =~= s.insert(p, x));
    }
}

/// The records in canonical order.
pub fn stable_sort<T: Keyed>(items: &[T]) -> (out: Vec<T>)
    ensures
        views(out@) == sorted::<T>(views(items@)),
{
    let mut out: Vec<T> = Vec::new();
    let mut i: usize = 0;
    assert(views(out@) =~= views(items@).take(0));
    while i < items.len()
        invariant
            i <= items@.len(),
            views(out@) == sorted::<T>(views(items@).take(i as int)),
        decreases items@.len() - i,
    {
        let item = items[i].duplicate();
        let mut p: usize = out.len();
        while p > 0 && item.precedes(&out[p - 1])
            invariant
                p <= out@.len(),
                forall|k: int|
                    p <= k < out@.len() ==> key_lt(
                        T::key_of(item@),
                        T::key_of(#[trigger] views(out@)[k]),
                    ),
            decreases p,
        {
            p = p - 1;
        }
        proof {
            let all = views(items@);
            lemma_insert_split::<T>(views(out@), item@, p as int);
            assert(all.take(i + 1).drop_last() =~= all.take(i as int));
            assert(all.take(i + 1).last() == item@);
            assert(views(out@.insert(p as int, item)) =~= views(out@).insert(p as int, item@));
        }
        out.insert(p, item);
        i = i + 1;
    }
    assert(views(items@).take(items@.len() as int) =~= views(items@));
    out
}

proof fn lemma_insert_sorted_facts<T: Keyed>(s: Seq<T::V>, x: T::V)
    ensures
        insert_sorted::<T>(s, x).len() == s.len() + 1,
        insert_sorted::<T>(s, x).to_multiset() == s.to_multiset().insert(x),
        in_key_order::<T>(s) ==> in_key_order::<T>(insert_sorted::<T>(s, x)),
    decreases s.len(),
{
    broadcast use vstd::seq_lib::group_to_multiset_ensures;

    let r = insert_sorted::<T>(s, x);
    if s.len() > 0 && key_lt(T::key_of(x), T::key_of(s.last())) {
        let init = s.drop_last();
        lemma_insert_sorted_facts::<T>(init, x);
        let inner = insert_sorted::<T>(init, x);
        assert(s =~= init.push(s.last()));
        assert(r.to_multiset() =~= s.to_multiset().insert(x));
        if in_key_order::<T>(s) {
            assert forall|i: int, j: int| 0 <= i < j < init.len() implies !key_lt(
                T::key_of(#[trigger] init[j]),
                T::key_of(#[trigger] init[i]),
            ) by {
                assert(init[j] == s[j] && init[i] == s[i]);
            }
            assert forall|i: int, j: int| 0 <= i < j < r.len() implies !key_lt(
                T::key_of(#[trigger] r[j]),
                T::key_of(#[trigger] r[i]),
            ) by {
                if j < inner.len() {
                    assert(r[j] == inner[j] && r[i] == inner[i]);
                } else {
                    assert(r[j] == s.last());
                    assert(inner.contains(r[i]));
                    assert(inner.to_multiset().count(r[i]) > 0);
                    lemma_key_lt_total(T::key_of(x), T::key_of(s.last()));
                    if r[i] != x {
                        assert(init.to_multiset().count(r[i]) > 0);
                        assert(init.contains(r[i]));
                        let k = choose|k: int| 0 <= k < init.len() && init[k] == r[i];
                        assert(s[k] == r[i]);
                        assert(s[s.len() - 1] == s.last());
                    }
                }
            }
        }
    } else {
        assert(r.to_multiset() =~= s.to_multiset().insert(x));
        if in_key_order::<T>(s) {
            assert forall|i: int, j: int| 0 <= i < j < r.len() implies !key_lt(
                T::key_of(#[trigger] r[j]),
                T::key_of(#[trigger] r[i]),
            ) by {
                if j < s.len() {
                    assert(r[j] == s[j] && r[i] == s[i]);
                } else {
                    assert(r[i] == s[i]);
                    assert(s.last() == s[s.len() - 1]);
                    if i < s.len() - 1 && key_lt(T::key_of(x), T::key_of(s[i])) {
                        lemma_key_lt_total(T::key_of(s[i]), T::key_of(s.last()));
                        lemma_key_lt_total(T::key_of(x), T::key_of(s[i]));
                        if T::key_of(s[i]) != T::key_of(s.last()) {
                            lemma_key_lt_transitive(
                                T::key_of(x),
                                T::key_of(s[i]),
                                T::key_of(s.last()),
                            );
                        }
                    }
                }
            }
        }
    }
}

/// Sorting keeps every record, as often as it occurred, and leaves the records
/// in key order.
pub proof fn lemma_sorted_is_ordered_permutation<T: Keyed>(s: Seq<T::V>)
    ensures
        sorted::<T>(s).len() == s.len(),
        sorted::<T>(s).to_multiset() == s.to_multiset(),
        in_key_order::<T>(sorted::<T>(s)),
    decreases s.len(),
{
    broadcast use vstd::seq_lib::group_to_multiset_ensures;

    if s.len() > 0 {
        let init = s.drop_last();
        lemma_sorted_is_ordered_permutation::<T>(init);
        lemma_insert_sorted_facts::<T>(sorted::<T>(init), s.last());
        assert(s =~= init.push(s.last()));
        assert(s.to_multiset() =~= init.to_multiset().insert(s.last()));
    }
}

/// Two arrangements of the same records in key order are the same, where a key
/// determines its record.
proof fn lemma_ordered_unique<T: Keyed>(a: Seq<T::V>, b: Seq<T::V>)
    requires
        a.to_multiset() == b.to_multiset(),
        in_key_order::<T>(a),
        in_key_order::<T>(b),
        keys_determine::<T>(a),
    ensures
        a == b,
    decreases a.len(),
{
    broadcast use vstd::seq_lib::group_to_multiset_ensures;

    assert(a.len() == a.to_multiset().len());
    assert(b.len() == b.to_multiset().len());
    if a.len() == 0 {
        assert(a =~= b);
    } else {
        let x = a.last();
        let y = b.last();
        assert(a[a.len() - 1] == x && b[b.len() - 1] == y);
        assert(a.contains(x));
        assert(a.to_multiset().count(x) > 0);
        assert(b.contains(x));
        assert(b.contains(y));
        assert(b.to_multiset().count(y) > 0);
        assert(a.contains(y));
        let i = choose|i: int| 0 <= i < b.len() && b[i] == x;
        let j = choose|j: int| 0 <= j < a.len() && a[j] == y;
        lemma_key_lt_total(T::key_of(x), T::key_of(y));
        assert(T::key_of(x) == T::key_of(y)) by {
            if i < b.len() - 1 {
                assert(!key_lt(T::key_of(b[b.len() - 1]), T::key_of(b[i])));
            }
            if j < a.len() - 1 {
                assert(!key_lt(T::key_of(a[a.len() - 1]), T::key_of(a[j])));
            }
        }
        assert(x == y);
        let ai = a.drop_last();
        let bi = b.drop_last();
        assert(a =~= ai.push(x));
        assert(b =~= bi.push(x));
        assert(ai.to_multiset() =~= a.to_multiset().remove(x));
        assert(bi.to_multiset() =~= b.to_multiset().remove(x));
        assert(in_key_order::<T>(ai)) by {
            assert forall|p: int, q: int| 0 <= p < q < ai.len() implies !key_lt(
                T::key_of(#[trigger] ai[q]),
                T::key_of(#[trigger] ai[p]),
            ) by {
                assert(ai[p] == a[p] && ai[q] == a[q]);
            }
        }
        assert(in_key_order::<T>(bi)) by {
            assert forall|p: int, q: int| 0 <= p < q < bi.len() implies !key_lt(
                T::key_of(#[trigger] bi[q]),
                T::key_of(#[trigger] bi[p]),
            ) by {
                assert(bi[p] == b[p] && bi[q] == b[q]);
            }
        }
        assert(keys_determine::<T>(ai)) by {
            assert forall|p: int, q: int|
                0 <= p < ai.len() && 0 <= q < ai.len() && T::key_of(#[trigger] ai[p]) == T::key_of(
                    #[trigger] ai[q],
                ) implies ai[p] == ai[q] by {
                assert(ai[p] == a[p] && ai[q] == a[q]);
            }
        }
        lemma_ordered_unique::<T>(ai, bi);
    }
}

/// The canonical order does not depend on the order in which the records were
/// given, where a key determines its record.
pub proof fn lemma_sorted_is_canonical<T: Keyed>(a: Seq<T::V>, b: Seq<T::V>)
    requires
        a.to_multiset() == b.to_multiset(),
        keys_determine::<T>(a),
    ensures
        sorted::<T>(a) == sorted::<T>(b),
{
    broadcast use vstd::seq_lib::group_to_multiset_ensures;

    lemma_sorted_is_ordered_permutation::<T>(a);
    lemma_sorted_is_ordered_permutation::<T>(b);
    assert forall|i: int, j: int|
        0 <= i < sorted::<T>(a).len() && 0 <= j < sorted::<T>(a).len() && T::key_of(
            #[trigger] sorted::<T>(a)[i],
        ) == T::key_of(#[trigger] sorted::<T>(a)[j]) implies sorted::<T>(a)[i] == sorted::<T>(
        a,
    )[j] by {
        let x = sorted::<T>(a)[i];
        let y = sorted::<T>(a)[j];
        assert(sorted::<T>(a).contains(x) && sorted::<T>(a).contains(y));
        assert(a.to_multiset().count(x) > 0 && a.to_multiset().count(y) > 0);
        assert(a.contains(x) && a.contains(y));
    }
    lemma_ordered_unique::<T>(sorted::<T>(a), sorted::<T>(b));
}

// ---------------------------------------------------------------------------
// Laws
// ---------------------------------------------------------------------------

/// The byte-wise order is that of a dictionary: one string comes before another exactly
/// where they agree up to some place and there the first one ends, or has the smaller
/// byte.
pub proof fn law_bytes_are_ordered_as_in_a_dictionary(a: Seq<u8>, b: Seq<u8>)
    ensures
        bytes_lt(a, b) <==> exists|k: int|
            0 <= k <= a.len() && k < b.len() && #[trigger] a.take(k) == b.take(k) && (k == a.len()
                || a[k] < b[k]),
    decreases a.len(),
{
    if a.len() > 0 && b.len() > 0 && a[0] == b[0] {
        let x = a.drop_first();
        let y = b.drop_first();
        law_bytes_are_ordered_as_in_a_dictionary(x, y);
        if bytes_lt(x, y) {
            let k = choose|k: int|
                0 <= k <= x.len() && k < y.len() && #[trigger] x.take(k) == y.take(k) && (k
                    == x.len() || x[k] < y[k]);
            assert(a.take(k + 1) =~= seq![a[0]] + x.take(k));
            assert(b.take(k + 1) =~= seq![b[0]] + y.take(k));
        }
        if exists|k: int|
            0 <= k <= a.len() && k < b.len() && #[trigger] a.take(k) == b.take(k) && (k == a.len()
                || a[k] < b[k]) {
            let k = choose|k: int|
                0 <= k <= a.len() && k < b.len() && #[trigger] a.take(k) == b.take(k) && (k
                    == a.len() || a[k] < b[k]);
            assert(k > 0);
            assert(x.take(k - 1) =~= a.take(k).drop_first());
            assert(y.take(k - 1) =~= b.take(k).drop_first());
            assert(x.take(k - 1) == y.take(k - 1));
        }
    } else {
        if bytes_lt(a, b) {
            assert(a.take(0) =~= b.take(0));
        }
        if exists|k: int|
            0 <= k <= a.len() && k < b.len() && #[trigger] a.take(k) == b.take(k) && (k == a.len()
                || a[k] < b[k]) {
            let k = choose|k: int|
                0 <= k <= a.len() && k < b.len() && #[trigger] a.take(k) == b.take(k) && (k
                    == a.len() || a[k] < b[k]);
            if k > 0 {
                assert(a.take(k)[0] == a[0]);
                assert(b.take(k)[0] == b[0]);
            }
        }
    }
}

/// The order on keys is that of their first names that differ.
pub proof fn law_keys_are_ordered_by_the_first_difference(
    a: Seq<Seq<u8>>,
    b: Seq<Seq<u8>>,
    k: int,
)
    requires
        0 <= k < a.len(),
        k < b.len(),
        a.take(k) == b.take(k),
        a[k] != b[k],
    ensures
        key_lt(a, b) <==> bytes_lt(a[k], b[k]),
    decreases k,
{
    if k > 0 {
        assert(a.take(k)[0] == a[0] && b.take(k)[0] == b[0]);
        assert(a.drop_first().take(k - 1) =~= a.take(k).drop_first());
        assert(b.drop_first().take(k - 1) =~= b.take(k).drop_first());
        law_keys_are_ordered_by_the_first_difference(a.drop_first(), b.drop_first(), k - 1);
    }
}

proof fn lemma_filter_push<A>(s: Seq<A>, x: A, keep: spec_fn(A) -> bool)
    ensures
        s.push(x).filter(keep) == (if keep(x) {
            s.filter(keep).push(x)
        } else {
            s.filter(keep)
        }),
{
    reveal(Seq::filter);
    assert(s.push(x).drop_last() =~= s);
}

proof fn lemma_insert_is_stable<T: Keyed>(s: Seq<T::V>, x: T::V, key: Seq<Seq<u8>>)
    ensures
        insert_sorted::<T>(s, x).filter(|y: T::V| T::key_of(y) == key) == (if T::key_of(x)
            == key {
            s.filter(|y: T::V| T::key_of(y) == key).push(x)
        } else {
            s.filter(|y: T::V| T::key_of(y) == key)
        }),
    decreases s.len(),
{
    let keep = |y: T::V| T::key_of(y) == key;
    if s.len() > 0 && key_lt(T::key_of(x), T::key_of(s.last())) {
        let init = s.drop_last();
        assert(s =~= init.push(s.last()));
        lemma_insert_is_stable::<T>(init, x, key);
        lemma_filter_push(insert_sorted::<T>(init, x), s.last(), keep);
        lemma_filter_push(init, s.last(), keep);
        lemma_key_lt_total(T::key_of(x), T::key_of(s.last()));
    } else {
        lemma_filter_push(s, x, keep);
    }
}

/// Sorting is stable: records with the same key keep their order.
pub proof fn law_sorting_is_stable<T: Keyed>(s: Seq<T::V>, key: Seq<Seq<u8>>)
    ensures
        sorted::<T>(s).filter(|y: T::V| T::key_of(y) == key) == s.filter(
            |y: T::V| T::key_of(y) == key,
        ),
    decreases s.len(),
{
    let keep = |y: T::V| T::key_of(y) == key;
    if s.len() > 0 {
        let init = s.drop_last();
        law_sorting_is_stable::<T>(init, key);
        lemma_insert_is_stable::<T>(sorted::<T>(init), s.last(), key);
        assert(s =~= init.push(s.last()));
        lemma_filter_push(init, s.last(), keep);
    }
}

/// Sorting keeps every record as often as it is there, and puts them in order.
pub proof fn law_sorting_is_an_ordered_permutation<T: Keyed>(s: Seq<T::V>, i: int, j: int)
    ensures
        sorted::<T>(s).to_multiset() == s.to_multiset(),
        0 <= i < j < sorted::<T>(s).len() ==> !key_lt(
            T::key_of(sorted::<T>(s)[j]),
            T::key_of(sorted::<T>(s)[i]),
        ),
{
    lemma_sorted_is_ordered_permutation::<T>(s);
}

} // verus!
