//! Ordering a directed graph so that every producer precedes its consumers.
//!
//! Nodes are numbered from zero; an arc `(u, v)` says that `u` must come before
//! `v`. Arcs may repeat. Nodes become ready when all their producers have been
//! placed, and ready nodes are placed first come, first served.

use vstd::prelude::*;
use vstd::set_lib::set_int_range;

verus! {

/// An arc from a producer to a consumer.
pub type Arc = (int, int);

/// Every end of every arc is a node.
pub open spec fn arcs_in_range(arcs: Seq<Arc>, n: int) -> bool {
    forall|i: int|
        0 <= i < arcs.len() ==> 0 <= (#[trigger] arcs[i]).0 < n && 0 <= arcs[i].1 < n
}

/// How many arcs lead to `x` from nodes that are not in `done`.
pub open spec fn waiting(arcs: Seq<Arc>, x: int, done: Seq<int>) -> nat
    decreases arcs.len(),
{
    if arcs.len() == 0 {
        0
    } else {
        waiting(arcs.drop_last(), x, done) + if arcs.last().1 == x && !done.contains(
            arcs.last().0,
        ) {
            1nat
        } else {
            0nat
        }
    }
}

/// How many arcs lead from `u` to `x`.
pub open spec fn between(arcs: Seq<Arc>, u: int, x: int) -> nat
    decreases arcs.len(),
{
    if arcs.len() == 0 {
        0
    } else {
        between(arcs.drop_last(), u, x) + if arcs.last() == (u, x) {
            1nat
        } else {
            0nat
        }
    }
}

/// The nodes below `k` that no arc leads to, in order.
pub open spec fn roots(arcs: Seq<Arc>, k: int) -> Seq<int>
    decreases k,
{
    if k <= 0 {
        Seq::empty()
    } else if waiting(arcs, k - 1, Seq::empty()) == 0 {
        roots(arcs, k - 1).push(k - 1)
    } else {
        roots(arcs, k - 1)
    }
}

/// The nodes that become ready when `u` is placed after `done`, as far as the
/// first `k` arcs tell, in the order of the arcs.
pub open spec fn released(arcs: Seq<Arc>, k: int, u: int, done: Seq<int>) -> Seq<int>
    decreases k,
{
    if k <= 0 {
        Seq::empty()
    } else {
        let before = released(arcs, k - 1, u, done);
        let (from, to) = arcs[k - 1];
        if from == u && between(arcs.take(k), u, to) == waiting(arcs, to, done) {
            before.push(to)
        } else {
            before
        }
    }
}

/// Places ready nodes first come, first served. `line` holds the nodes that
/// were placed, up to `head`, and then those that are ready.
pub open spec fn placed(arcs: Seq<Arc>, n: int, line: Seq<int>, head: int) -> Seq<int>
    decreases n - head,
{
    if head >= n || head >= line.len() {
        line
    } else {
        placed(
            arcs,
            n,
            line + released(arcs, arcs.len() as int, line[head], line.take(head)),
            head + 1,
        )
    }
}

/// The order in which the nodes of a graph are placed.
pub open spec fn placement(arcs: Seq<Arc>, n: int) -> Seq<int> {
    placed(arcs, n, roots(arcs, n), 0)
}

/// A listing of all nodes, each once, in which producers precede consumers.
pub open spec fn is_order(arcs: Seq<Arc>, n: int, line: Seq<int>) -> bool {
    &&& line.no_duplicates()
    &&& forall|x: int| line.contains(x) <==> 0 <= x < n
    &&& forall|i: int, p: int|
        0 <= i < arcs.len() && 0 <= p < line.len() && #[trigger] line[p] == (
        #[trigger] arcs[i]).1 ==> line.take(p).contains(arcs[i].0)
}

// ---------------------------------------------------------------------------
// Counting
// ---------------------------------------------------------------------------

proof fn lemma_waiting_positive(arcs: Seq<Arc>, x: int, done: Seq<int>)
    ensures
        waiting(arcs, x, done) > 0 <==> exists|i: int|
            0 <= i < arcs.len() && (#[trigger] arcs[i]).1 == x && !done.contains(arcs[i].0),
    decreases arcs.len(),
{
    if arcs.len() > 0 {
        let init = arcs.drop_last();
        lemma_waiting_positive(init, x, done);
        if exists|i: int|
            0 <= i < init.len() && (#[trigger] init[i]).1 == x && !done.contains(init[i].0) {
            let i = choose|i: int|
                0 <= i < init.len() && (#[trigger] init[i]).1 == x && !done.contains(init[i].0);
            assert(arcs[i] == init[i]);
        }
        if exists|i: int|
            0 <= i < arcs.len() && (#[trigger] arcs[i]).1 == x && !done.contains(arcs[i].0) {
            let i = choose|i: int|
                0 <= i < arcs.len() && (#[trigger] arcs[i]).1 == x && !done.contains(arcs[i].0);
            if i < init.len() {
                assert(arcs[i] == init[i]);
            }
        }
        if arcs.last().1 == x && !done.contains(arcs.last().0) {
            assert(arcs[arcs.len() - 1].1 == x);
        }
    }
}

proof fn lemma_waiting_after(arcs: Seq<Arc>, x: int, done: Seq<int>, u: int)
    requires
        !done.contains(u),
    ensures
        waiting(arcs, x, done) == waiting(arcs, x, done.push(u)) + between(arcs, u, x),
    decreases arcs.len(),
{
    if arcs.len() > 0 {
        lemma_waiting_after(arcs.drop_last(), x, done, u);
        let from = arcs.last().0;
        assert(done.push(u).contains(from) <==> (done.contains(from) || from == u)) by {
            if done.contains(from) {
                let i = choose|i: int| 0 <= i < done.len() && done[i] == from;
                assert(done.push(u)[i] == from);
            }
            if from == u {
                assert(done.push(u)[done.len() as int] == u);
            }
        }
    }
}

proof fn lemma_between_grows(arcs: Seq<Arc>, j: int, k: int, u: int, x: int)
    requires
        0 <= j <= k <= arcs.len(),
    ensures
        between(arcs.take(j), u, x) <= between(arcs.take(k), u, x),
        j < k && arcs[k - 1] == (u, x) ==> between(arcs.take(j), u, x) < between(
            arcs.take(k),
            u,
            x,
        ),
    decreases k,
{
    if j < k {
        lemma_between_grows(arcs, j, k - 1, u, x);
        assert(arcs.take(k).drop_last() =~= arcs.take(k - 1));
        assert(arcs.take(k).last() == arcs[k - 1]);
    }
}

proof fn lemma_between_positive(arcs: Seq<Arc>, u: int, x: int) -> (k: int)
    requires
        between(arcs, u, x) > 0,
    ensures
        0 < k <= arcs.len(),
        arcs[k - 1] == (u, x),
        between(arcs.take(k), u, x) == between(arcs, u, x),
    decreases arcs.len(),
{
    if arcs.last() == (u, x) {
        assert(arcs.take(arcs.len() as int) =~= arcs);
        arcs.len() as int
    } else {
        let k = lemma_between_positive(arcs.drop_last(), u, x);
        assert(arcs.drop_last().take(k) =~= arcs.take(k));
        k
    }
}

// ---------------------------------------------------------------------------
// Released nodes
// ---------------------------------------------------------------------------

/// What is released lies at the end of the last arc that it was waiting for.
proof fn lemma_released_sound(arcs: Seq<Arc>, k: int, u: int, done: Seq<int>, p: int)
    requires
        0 <= k <= arcs.len(),
        0 <= p < released(arcs, k, u, done).len(),
    ensures
        exists|j: int|
            0 < j <= k && #[trigger] arcs[j - 1] == (u, released(arcs, k, u, done)[p]) && between(
                arcs.take(j),
                u,
                released(arcs, k, u, done)[p],
            ) == waiting(arcs, released(arcs, k, u, done)[p], done),
    decreases k,
{
    let before = released(arcs, k - 1, u, done);
    if p < before.len() {
        lemma_released_sound(arcs, k - 1, u, done, p);
        assert(released(arcs, k, u, done)[p] == before[p]);
    } else {
        assert(arcs[k - 1] == (u, released(arcs, k, u, done)[p]));
    }
}

/// Every node whose last arc is among the first `k` is released.
proof fn lemma_released_complete(
    arcs: Seq<Arc>,
    k: int,
    u: int,
    done: Seq<int>,
    j: int,
    x: int,
)
    requires
        0 < j <= k <= arcs.len(),
        arcs[j - 1] == (u, x),
        between(arcs.take(j), u, x) == waiting(arcs, x, done),
    ensures
        released(arcs, k, u, done).contains(x),
    decreases k,
{
    let before = released(arcs, k - 1, u, done);
    let all = released(arcs, k, u, done);
    if j < k {
        lemma_released_complete(arcs, k - 1, u, done, j, x);
        let p = choose|p: int| 0 <= p < before.len() && before[p] == x;
        assert(all[p] == x);
    } else {
        assert(all[before.len() as int] == x);
    }
}

proof fn lemma_released_no_duplicates(arcs: Seq<Arc>, k: int, u: int, done: Seq<int>)
    requires
        0 <= k <= arcs.len(),
    ensures
        released(arcs, k, u, done).no_duplicates(),
    decreases k,
{
    if k > 0 {
        let before = released(arcs, k - 1, u, done);
        lemma_released_no_duplicates(arcs, k - 1, u, done);
        let (from, to) = arcs[k - 1];
        if from == u && between(arcs.take(k), u, to) == waiting(arcs, to, done) {
            assert forall|p: int| 0 <= p < before.len() implies before[p] != to by {
                if before[p] == to {
                    lemma_released_sound(arcs, k - 1, u, done, p);
                    let j = choose|j: int|
                        0 < j <= k - 1 && #[trigger] arcs[j - 1] == (u, to) && between(
                            arcs.take(j),
                            u,
                            to,
                        ) == waiting(arcs, to, done);
                    lemma_between_grows(arcs, j, k, u, to);
                }
            }
        }
    }
}

/// Exactly those nodes are released that were waiting for `u` alone.
proof fn lemma_released(arcs: Seq<Arc>, u: int, done: Seq<int>)
    requires
        !done.contains(u),
    ensures
        released(arcs, arcs.len() as int, u, done).no_duplicates(),
        forall|x: int| #[trigger]
            released(arcs, arcs.len() as int, u, done).contains(x) <==> (waiting(arcs, x, done) > 0
                && waiting(arcs, x, done.push(u)) == 0),
{
    let k = arcs.len() as int;
    let all = released(arcs, k, u, done);
    lemma_released_no_duplicates(arcs, k, u, done);
    assert(arcs.take(k) =~= arcs);
    assert forall|x: int| #[trigger]
        all.contains(x) <==> (waiting(arcs, x, done) > 0 && waiting(arcs, x, done.push(u))
            == 0) by {
        lemma_waiting_after(arcs, x, done, u);
        if all.contains(x) {
            let p = choose|p: int| 0 <= p < all.len() && all[p] == x;
            lemma_released_sound(arcs, k, u, done, p);
            let j = choose|j: int|
                0 < j <= k && #[trigger] arcs[j - 1] == (u, x) && between(arcs.take(j), u, x)
                    == waiting(arcs, x, done);
            lemma_between_grows(arcs, j, k, u, x);
            lemma_between_grows(arcs, j - 1, j, u, x);
        }
        if waiting(arcs, x, done) > 0 && waiting(arcs, x, done.push(u)) == 0 {
            let j = lemma_between_positive(arcs, u, x);
            lemma_released_complete(arcs, k, u, done, j, x);
        }
    }
}

// ---------------------------------------------------------------------------
// The line of placed and ready nodes
// ---------------------------------------------------------------------------

/// What holds of the line all along: its nodes are distinct, they are exactly
/// those whose producers have all been placed, and each stands behind its
/// producers.
pub open spec fn line_ok(arcs: Seq<Arc>, n: int, line: Seq<int>, head: int) -> bool {
    &&& 0 <= head <= line.len()
    &&& line.no_duplicates()
    &&& forall|x: int| #[trigger]
        line.contains(x) <==> (0 <= x < n && waiting(arcs, x, line.take(head)) == 0)
    &&& forall|p: int|
        0 <= p < line.len() ==> waiting(arcs, #[trigger] line[p], line.take(p)) == 0
}

proof fn lemma_roots(arcs: Seq<Arc>, k: int)
    requires
        k >= 0,
    ensures
        roots(arcs, k).no_duplicates(),
        forall|x: int| #[trigger]
            roots(arcs, k).contains(x) <==> (0 <= x < k && waiting(arcs, x, Seq::empty()) == 0),
    decreases k,
{
    if k > 0 {
        lemma_roots(arcs, k - 1);
        let before = roots(arcs, k - 1);
        let all = roots(arcs, k);
        assert forall|x: int| #[trigger]
            all.contains(x) <==> (0 <= x < k && waiting(arcs, x, Seq::empty()) == 0) by {
            if before.contains(x) {
                let p = choose|p: int| 0 <= p < before.len() && before[p] == x;
                assert(all[p] == x);
            }
            if all.contains(x) {
                let p = choose|p: int| 0 <= p < all.len() && all[p] == x;
                if p < before.len() {
                    assert(before[p] == x);
                }
            }
            if x == k - 1 && waiting(arcs, x, Seq::empty()) == 0 {
                assert(all[before.len() as int] == x);
            }
        }
        assert forall|i: int, j: int|
            0 <= i < all.len() && 0 <= j < all.len() && i != j implies all[i] != all[j] by {
            assert(i < before.len() ==> before.contains(all[i]));
            assert(j < before.len() ==> before.contains(all[j]));
        }
    }
}

proof fn lemma_waiting_shrinks(arcs: Seq<Arc>, x: int, small: Seq<int>, large: Seq<int>)
    requires
        forall|u: int| #[trigger] small.contains(u) ==> large.contains(u),
        waiting(arcs, x, small) == 0,
    ensures
        waiting(arcs, x, large) == 0,
{
    lemma_waiting_positive(arcs, x, small);
    lemma_waiting_positive(arcs, x, large);
    if waiting(arcs, x, large) > 0 {
        let i = choose|i: int|
            0 <= i < arcs.len() && (#[trigger] arcs[i]).1 == x && !large.contains(arcs[i].0);
        assert(!small.contains(arcs[i].0));
    }
}

/// The line starts out right.
pub proof fn lemma_line_start(arcs: Seq<Arc>, n: int)
    requires
        n >= 0,
    ensures
        line_ok(arcs, n, roots(arcs, n), 0),
{
    let line = roots(arcs, n);
    lemma_roots(arcs, n);
    assert(line.take(0) =~= Seq::empty());
    assert forall|p: int| 0 <= p < line.len() implies waiting(
        arcs,
        #[trigger] line[p],
        line.take(p),
    ) == 0 by {
        assert(line.contains(line[p]));
        lemma_waiting_shrinks(arcs, line[p], Seq::empty(), line.take(p));
    }
}

/// Placing the next node keeps the line right.
pub proof fn lemma_line_step(arcs: Seq<Arc>, n: int, line: Seq<int>, head: int)
    requires
        line_ok(arcs, n, line, head),
        arcs_in_range(arcs, n),
        head < line.len(),
    ensures
        line_ok(
            arcs,
            n,
            line + released(arcs, arcs.len() as int, line[head], line.take(head)),
            head + 1,
        ),
{
    let u = line[head];
    let done = line.take(head);
    let more = released(arcs, arcs.len() as int, u, done);
    let next = line + more;
    assert(!done.contains(u)) by {
        if done.contains(u) {
            let q = choose|q: int| 0 <= q < done.len() && done[q] == u;
            assert(line[q] == u);
        }
    }
    lemma_released(arcs, u, done);
    assert(next.take(head + 1) =~= done.push(u));
    assert forall|x: int| #[trigger]
        next.contains(x) <==> (0 <= x < n && waiting(arcs, x, next.take(head + 1)) == 0) by {
        lemma_waiting_after(arcs, x, done, u);
        if line.contains(x) {
            let p = choose|p: int| 0 <= p < line.len() && line[p] == x;
            assert(next[p] == x);
        }
        if more.contains(x) {
            let p = choose|p: int| 0 <= p < more.len() && more[p] == x;
            assert(next[line.len() + p] == x);
            lemma_waiting_positive(arcs, x, done);
        }
        if next.contains(x) {
            let p = choose|p: int| 0 <= p < next.len() && next[p] == x;
            if p < line.len() {
                assert(line[p] == x);
            } else {
                assert(more[p - line.len()] == x);
            }
        }
    }
    assert forall|i: int, j: int|
        0 <= i < next.len() && 0 <= j < next.len() && i != j implies next[i] != next[j] by {
        if i < line.len() && j >= line.len() {
            assert(line.contains(next[i]));
            assert(more[j - line.len()] == next[j]);
            assert(more.contains(next[j]));
        } else if i >= line.len() && j < line.len() {
            assert(line.contains(next[j]));
            assert(more[i - line.len()] == next[i]);
            assert(more.contains(next[i]));
        } else if i >= line.len() && j >= line.len() {
            assert(more[i - line.len()] == next[i]);
            assert(more[j - line.len()] == next[j]);
        }
    }
    assert forall|p: int| 0 <= p < next.len() implies waiting(
        arcs,
        #[trigger] next[p],
        next.take(p),
    ) == 0 by {
        if p < line.len() {
            assert(next[p] == line[p]);
            assert(next.take(p) =~= line.take(p));
        } else {
            let x = next[p];
            assert(more[p - line.len()] == x);
            assert(more.contains(x));
            assert forall|v: int| #[trigger] done.push(u).contains(v) implies next.take(p).contains(
                v,
            ) by {
                let q = choose|q: int| 0 <= q < done.push(u).len() && done.push(u)[q] == v;
                assert(next.take(p)[q] == v);
            }
            lemma_waiting_shrinks(arcs, x, done.push(u), next.take(p));
        }
    }
}

/// Distinct nodes are at most `n`, and if they are `n` they are all.
pub proof fn lemma_pigeonhole(line: Seq<int>, n: int)
    requires
        n >= 0,
        line.no_duplicates(),
        forall|x: int| #[trigger] line.contains(x) ==> 0 <= x < n,
    ensures
        line.len() <= n,
        line.len() == n ==> forall|x: int| 0 <= x < n ==> #[trigger] line.contains(x),
        (forall|x: int| 0 <= x < n ==> #[trigger] line.contains(x)) ==> line.len() == n,
{
    let seen = line.to_set();
    line.unique_seq_to_set();
    vstd::set_lib::lemma_int_range(0, n);
    let all = set_int_range(0, n);
    assert forall|x: int| #[trigger] seen.contains(x) implies all.contains(x) by {
        assert(line.contains(x));
    }
    assert(seen.subset_of(all));
    vstd::set_lib::lemma_len_subset(seen, all);
    if line.len() == n {
        vstd::set_lib::lemma_subset_equality(seen, all);
        assert forall|x: int| 0 <= x < n implies #[trigger] line.contains(x) by {
            assert(all.contains(x));
            assert(seen.contains(x));
        }
    }
    if forall|x: int| 0 <= x < n ==> #[trigger] line.contains(x) {
        assert forall|x: int| #[trigger] all.contains(x) implies seen.contains(x) by {
            assert(line.contains(x));
        }
        vstd::set_lib::lemma_len_subset(all, seen);
    }
}

/// When the line has run out, it is an order of the graph if it holds every
/// node, and otherwise the graph has none.
pub proof fn lemma_line_end(arcs: Seq<Arc>, n: int, line: Seq<int>)
    requires
        n >= 0,
        arcs_in_range(arcs, n),
        line_ok(arcs, n, line, line.len() as int),
    ensures
        line.len() <= n,
        line.len() == n ==> is_order(arcs, n, line),
        line.len() < n ==> forall|other: Seq<int>| !is_order(arcs, n, other),
{
    assert(line.take(line.len() as int) =~= line);
    lemma_pigeonhole(line, n);
    if line.len() == n {
        assert forall|i: int, p: int|
            0 <= i < arcs.len() && 0 <= p < line.len() && #[trigger] line[p] == (
            #[trigger] arcs[i]).1 implies line.take(p).contains(arcs[i].0) by {
            lemma_waiting_positive(arcs, line[p], line.take(p));
        }
    } else {
        assert forall|other: Seq<int>| !is_order(arcs, n, other) by {
            if is_order(arcs, n, other) {
                let x = choose|x: int| 0 <= x < n && !#[trigger] line.contains(x);
                assert(other.contains(x));
                let p = choose|p: int| 0 <= p < other.len() && other[p] == x;
                lemma_order_is_placed(arcs, n, line, other, p);
            }
        }
    }
}

/// A line that has run out holds every node of an order.
proof fn lemma_order_is_placed(arcs: Seq<Arc>, n: int, line: Seq<int>, other: Seq<int>, p: int)
    requires
        line_ok(arcs, n, line, line.len() as int),
        arcs_in_range(arcs, n),
        is_order(arcs, n, other),
        0 <= p < other.len(),
    ensures
        line.contains(other[p]),
    decreases p,
{
    let x = other[p];
    assert(line.take(line.len() as int) =~= line);
    assert(other.contains(x));
    lemma_waiting_positive(arcs, x, line);
    if !line.contains(x) {
        let i = choose|i: int|
            0 <= i < arcs.len() && (#[trigger] arcs[i]).1 == x && !line.contains(arcs[i].0);
        assert(other.take(p).contains(arcs[i].0));
        let q = choose|q: int| 0 <= q < other.take(p).len() && other.take(p)[q] == arcs[i].0;
        assert(other[q] == arcs[i].0);
        lemma_order_is_placed(arcs, n, line, other, q);
    }
}

/// A closed walk along the arcs.
pub open spec fn is_cycle(arcs: Seq<Arc>, walk: Seq<int>) -> bool {
    &&& walk.len() >= 2
    &&& walk.first() == walk.last()
    &&& is_walk(arcs, walk)
}

/// Each node of a walk has an arc to the next.
pub open spec fn is_walk(arcs: Seq<Arc>, walk: Seq<int>) -> bool {
    forall|i: int| 0 <= i < walk.len() - 1 ==> #[trigger] linked(arcs, walk, i)
}

/// The `i`th node of a walk has an arc to the next.
pub open spec fn linked(arcs: Seq<Arc>, walk: Seq<int>, i: int) -> bool {
    arcs.contains((walk[i], walk[i + 1]))
}

/// In an order, a walk only goes forward.
proof fn lemma_walk_goes_forward(
    arcs: Seq<Arc>,
    n: int,
    order: Seq<int>,
    walk: Seq<int>,
    p: int,
)
    requires
        is_order(arcs, n, order),
        is_walk(arcs, walk),
        walk.len() >= 2,
        0 <= p < order.len(),
        order[p] == walk.last(),
    ensures
        exists|q: int| 0 <= q < p && #[trigger] order[q] == walk.first(),
    decreases walk.len(),
{
    let k = walk.len() - 2;
    let arc = (walk[k], walk[k + 1]);
    assert(linked(arcs, walk, k));
    let i = choose|i: int| 0 <= i < arcs.len() && arcs[i] == arc;
    assert(order[p] == arcs[i].1);
    assert(order.take(p).contains(arcs[i].0));
    let q = choose|q: int| 0 <= q < order.take(p).len() && order.take(p)[q] == arcs[i].0;
    assert(order[q] == walk[k]);
    if k > 0 {
        let shorter = walk.drop_last();
        assert(is_walk(arcs, shorter)) by {
            assert forall|j: int| 0 <= j < shorter.len() - 1 implies #[trigger] linked(
                arcs,
                shorter,
                j,
            ) by {
                assert(linked(arcs, walk, j));
            }
        }
        assert(shorter.last() == walk[k]);
        lemma_walk_goes_forward(arcs, n, order, shorter, q);
        let r = choose|r: int| 0 <= r < q && #[trigger] order[r] == shorter.first();
        assert(order[r] == walk.first());
    }
}

/// A walk of any length through nodes outside a line that has run out.
proof fn lemma_walk_outside(arcs: Seq<Arc>, n: int, line: Seq<int>, x: int, len: nat) -> (walk: Seq<
    int,
>)
    requires
        line_ok(arcs, n, line, line.len() as int),
        arcs_in_range(arcs, n),
        0 <= x < n,
        !line.contains(x),
        len >= 1,
    ensures
        walk.len() == len,
        is_walk(arcs, walk),
        forall|i: int|
            0 <= i < walk.len() ==> 0 <= #[trigger] walk[i] < n && !line.contains(walk[i]),
    decreases len,
{
    if len == 1 {
        seq![x]
    } else {
        let rest = lemma_walk_outside(arcs, n, line, x, (len - 1) as nat);
        assert(line.take(line.len() as int) =~= line);
        let y = rest[0];
        assert(!line.contains(y));
        lemma_waiting_positive(arcs, y, line);
        let i = choose|i: int|
            0 <= i < arcs.len() && (#[trigger] arcs[i]).1 == y && !line.contains(arcs[i].0);
        let walk = seq![arcs[i].0] + rest;
        assert(arcs[i] == (walk[0], walk[1]));
        assert forall|j: int| 0 <= j < walk.len() - 1 implies #[trigger] linked(
            arcs,
            walk,
            j,
        ) by {
            if j > 0 {
                assert(linked(arcs, rest, j - 1));
                assert(walk[j] == rest[j - 1]);
                assert(walk[j + 1] == rest[j]);
            }
        }
        assert forall|j: int| 0 <= j < walk.len() implies 0 <= #[trigger] walk[j] < n
            && !line.contains(walk[j]) by {
            if j > 0 {
                assert(walk[j] == rest[j - 1]);
            }
        }
        walk
    }
}

/// A graph can be ordered exactly where it has no cycle.
pub proof fn law_order_unless_cycle(arcs: Seq<Arc>, n: int)
    requires
        n >= 0,
        arcs_in_range(arcs, n),
    ensures
        (exists|order: Seq<int>| is_order(arcs, n, order)) <==> !(exists|walk: Seq<int>|
            is_cycle(arcs, walk)),
{
    if exists|order: Seq<int>| is_order(arcs, n, order) {
        let order = choose|order: Seq<int>| is_order(arcs, n, order);
        assert forall|walk: Seq<int>| !is_cycle(arcs, walk) by {
            if is_cycle(arcs, walk) {
                let k = walk.len() - 2;
                let arc = (walk[k], walk[k + 1]);
                assert(linked(arcs, walk, k));
                let i = choose|i: int| 0 <= i < arcs.len() && arcs[i] == arc;
                assert(order.contains(walk.last()));
                let p = choose|p: int| 0 <= p < order.len() && order[p] == walk.last();
                lemma_walk_goes_forward(arcs, n, order, walk, p);
                let q = choose|q: int| 0 <= q < p && #[trigger] order[q] == walk.first();
                assert(order[q] == order[p]);
            }
        }
    } else {
        let line = placement(arcs, n);
        lemma_placement(arcs, n);
        lemma_line_end(arcs, n, line);
        lemma_pigeonhole(line, n);
        let x = choose|x: int| 0 <= x < n && !#[trigger] line.contains(x);
        let walk = lemma_walk_outside(arcs, n, line, x, (n + 1) as nat);
        if walk.no_duplicates() {
            assert forall|y: int| #[trigger] walk.contains(y) implies 0 <= y < n by {
                let i = choose|i: int| 0 <= i < walk.len() && walk[i] == y;
            }
            lemma_pigeonhole(walk, n);
        }
        let (i, j) = choose|i: int, j: int|
            0 <= i < walk.len() && 0 <= j < walk.len() && i != j && #[trigger] walk[i]
                == #[trigger] walk[j];
        let (a, b) = if i < j {
            (i, j)
        } else {
            (j, i)
        };
        let closed = walk.subrange(a, b + 1);
        assert(is_walk(arcs, closed)) by {
            assert forall|k: int| 0 <= k < closed.len() - 1 implies #[trigger] linked(
                arcs,
                closed,
                k,
            ) by {
                assert(linked(arcs, walk, a + k));
                assert(closed[k] == walk[a + k]);
                assert(closed[k + 1] == walk[a + k + 1]);
            }
        }
        assert(is_cycle(arcs, closed));
    }
}

proof fn lemma_placed(arcs: Seq<Arc>, n: int, line: Seq<int>, head: int)
    requires
        arcs_in_range(arcs, n),
        n >= 0,
        line_ok(arcs, n, line, head),
    ensures
        line_ok(arcs, n, placed(arcs, n, line, head), placed(arcs, n, line, head).len() as int),
    decreases n - head,
{
    lemma_pigeonhole(line, n);
    if head < line.len() {
        lemma_line_step(arcs, n, line, head);
        lemma_placed(
            arcs,
            n,
            line + released(arcs, arcs.len() as int, line[head], line.take(head)),
            head + 1,
        );
    }
}

/// Placing the nodes of a graph ends with a line that has run out.
pub proof fn lemma_placement(arcs: Seq<Arc>, n: int)
    requires
        arcs_in_range(arcs, n),
        n >= 0,
    ensures
        line_ok(arcs, n, placement(arcs, n), placement(arcs, n).len() as int),
{
    lemma_line_start(arcs, n);
    lemma_placed(arcs, n, roots(arcs, n), 0);
}

// ---------------------------------------------------------------------------
// Placing nodes
// ---------------------------------------------------------------------------

/// The arcs as numbers.
pub open spec fn arcs_of(arcs: Seq<(usize, usize)>) -> Seq<Arc> {
    Seq::new(arcs.len(), |i: int| (arcs[i].0 as int, arcs[i].1 as int))
}

/// The nodes as numbers.
pub open spec fn nodes_of(line: Seq<usize>) -> Seq<int> {
    Seq::new(line.len(), |i: int| line[i] as int)
}

proof fn lemma_waiting_bound(arcs: Seq<Arc>, x: int, done: Seq<int>)
    ensures
        waiting(arcs, x, done) <= arcs.len(),
    decreases arcs.len(),
{
    if arcs.len() > 0 {
        lemma_waiting_bound(arcs.drop_last(), x, done);
    }
}

/// How many arcs lead to each node.
fn count_arcs(arcs: &Vec<(usize, usize)>, n: usize) -> (degree: Vec<usize>)
    requires
        arcs_in_range(arcs_of(arcs@), n as int),
    ensures
        degree@.len() == n,
        forall|x: int|
            0 <= x < n ==> #[trigger] degree@[x] == waiting(arcs_of(arcs@), x, Seq::empty()),
{
    let ghost all = arcs_of(arcs@);
    let mut degree: Vec<usize> = Vec::new();
    let mut x: usize = 0;
    while x < n
        invariant
            x <= n,
            degree@.len() == x,
            forall|y: int| 0 <= y < x ==> #[trigger] degree@[y] == 0,
        decreases n - x,
    {
        degree.push(0);
        x = x + 1;
    }
    let mut k: usize = 0;
    assert(all.take(0) =~= Seq::empty());
    while k < arcs.len()
        invariant
            k <= arcs@.len(),
            all == arcs_of(arcs@),
            arcs_in_range(all, n as int),
            degree@.len() == n,
            forall|y: int|
                0 <= y < n ==> #[trigger] degree@[y] == waiting(
                    all.take(k as int),
                    y,
                    Seq::empty(),
                ),
        decreases arcs@.len() - k,
    {
        let to: usize = arcs[k].1;
        proof {
            assert(all[k as int].1 == to);
            assert(all.take(k + 1).drop_last() =~= all.take(k as int));
            assert(all.take(k + 1).last() == all[k as int]);
            lemma_waiting_bound(all.take(k as int), to as int, Seq::empty());
        }
        let d: usize = degree[to];
        degree.set(to, d + 1);
        k = k + 1;
    }
    assert(all.take(arcs@.len() as int) =~= all);
    degree
}

/// Places the nodes of a graph.
pub fn place(arcs: &Vec<(usize, usize)>, n: usize) -> (line: Vec<usize>)
    requires
        arcs_in_range(arcs_of(arcs@), n as int),
    ensures
        nodes_of(line@) == placement(arcs_of(arcs@), n as int),
        line@.len() <= n,
{
    let ghost all = arcs_of(arcs@);
    let mut degree = count_arcs(arcs, n);
    let mut line: Vec<usize> = Vec::new();
    let mut x: usize = 0;
    while x < n
        invariant
            x <= n,
            degree@.len() == n,
            forall|y: int|
                0 <= y < n ==> #[trigger] degree@[y] == waiting(all, y, Seq::empty()),
            nodes_of(line@) == roots(all, x as int),
        decreases n - x,
    {
        if degree[x] == 0 {
            line.push(x);
            assert(nodes_of(line@) =~= roots(all, x + 1));
        }
        x = x + 1;
    }
    let mut head: usize = 0;
    proof {
        lemma_line_start(all, n as int);
        assert(nodes_of(line@).take(0) =~= Seq::empty());
    }
    while head < line.len()
        invariant
            head <= line@.len(),
            all == arcs_of(arcs@),
            arcs_in_range(all, n as int),
            degree@.len() == n,
            line_ok(all, n as int, nodes_of(line@), head as int),
            forall|y: int|
                0 <= y < n ==> #[trigger] degree@[y] == waiting(
                    all,
                    y,
                    nodes_of(line@).take(head as int),
                ),
            placement(all, n as int) == placed(all, n as int, nodes_of(line@), head as int),
        decreases n - head,
    {
        let u: usize = line[head];
        let ghost before = nodes_of(line@);
        let ghost done = before.take(head as int);
        let ghost start = degree@;
        proof {
            lemma_pigeonhole(before, n as int);
            assert(before[head as int] == u);
            assert(!done.contains(u as int)) by {
                if done.contains(u as int) {
                    let q = choose|q: int| 0 <= q < done.len() && done[q] == u;
                    assert(before[q] == before[head as int]);
                }
            }
            assert(before + released(all, 0, u as int, done) =~= before);
        }
        let mut k: usize = 0;
        while k < arcs.len()
            invariant
                k <= arcs@.len(),
                all == arcs_of(arcs@),
                arcs_in_range(all, n as int),
                degree@.len() == n,
                !done.contains(u as int),
                nodes_of(line@) == before + released(all, k as int, u as int, done),
                forall|y: int|
                    0 <= y < n ==> #[trigger] degree@[y] == waiting(all, y, done) - between(
                        all.take(k as int),
                        u as int,
                        y,
                    ),
            decreases arcs@.len() - k,
        {
            proof {
                assert(all.take(k + 1).drop_last() =~= all.take(k as int));
                assert(all.take(k + 1).last() == all[k as int]);
            }
            if arcs[k].0 == u {
                let to: usize = arcs[k].1;
                proof {
                    assert(all[k as int] == (u as int, to as int));
                    lemma_waiting_after(all, to as int, done, u as int);
                    lemma_between_grows(all, k + 1, all.len() as int, u as int, to as int);
                    assert(all.take(all.len() as int) =~= all);
                }
                let d: usize = degree[to];
                degree.set(to, d - 1);
                if d - 1 == 0 {
                    proof {
                        let sofar = released(all, k as int, u as int, done);
                        assert(between(all.take(k + 1), u as int, to as int) == between(
                            all.take(k as int),
                            u as int,
                            to as int,
                        ) + 1);
                        assert(released(all, k + 1, u as int, done) == sofar.push(to as int));
                        assert(nodes_of(line@.push(to)) =~= nodes_of(line@).push(to as int));
                        assert(before + sofar.push(to as int) =~= (before + sofar).push(to as int));
                    }
                    line.push(to);
                }
            }
            k = k + 1;
        }
        proof {
            let after = nodes_of(line@);
            lemma_line_step(all, n as int, before, head as int);
            assert(all.take(all.len() as int) =~= all);
            assert(after.take(head + 1) =~= done.push(u as int));
            assert forall|y: int| 0 <= y < n implies #[trigger] degree@[y] == waiting(
                all,
                y,
                after.take(head + 1),
            ) by {
                lemma_waiting_after(all, y, done, u as int);
            }
        }
        head = head + 1;
    }
    proof {
        lemma_pigeonhole(nodes_of(line@), n as int);
    }
    line
}

// ---------------------------------------------------------------------------
// Ties
// ---------------------------------------------------------------------------

/// What stands in the line stays there.
proof fn lemma_placed_keeps(arcs: Seq<Arc>, n: int, line: Seq<int>, head: int)
    ensures
        placed(arcs, n, line, head).len() >= line.len(),
        forall|i: int| 0 <= i < line.len() ==> (#[trigger] placed(arcs, n, line, head)[i])
            == line[i],
    decreases n - head,
{
    if !(head >= n || head >= line.len()) {
        let more = line + released(arcs, arcs.len() as int, line[head], line.take(head));
        lemma_placed_keeps(arcs, n, more, head + 1);
        assert forall|i: int| 0 <= i < line.len() implies (#[trigger] placed(
            arcs,
            n,
            line,
            head,
        )[i]) == line[i] by {
            assert(placed(arcs, n, more, head + 1)[i] == more[i]);
        }
    }
}

proof fn lemma_roots_ascend(arcs: Seq<Arc>, k: int)
    ensures
        forall|i: int, j: int|
            0 <= i < j < roots(arcs, k).len() ==> (#[trigger] roots(arcs, k)[i]) < (
            #[trigger] roots(arcs, k)[j]),
        forall|i: int|
            0 <= i < roots(arcs, k).len() ==> 0 <= (#[trigger] roots(arcs, k)[i]) < k && waiting(
                arcs,
                roots(arcs, k)[i],
                Seq::empty(),
            ) == 0,
        forall|x: int|
            0 <= x < k && waiting(arcs, x, Seq::empty()) == 0 ==> #[trigger] roots(
                arcs,
                k,
            ).contains(x),
    decreases k,
{
    if k > 0 {
        let before = roots(arcs, k - 1);
        let all = roots(arcs, k);
        lemma_roots_ascend(arcs, k - 1);
        assert forall|i: int, j: int| 0 <= i < j < all.len() implies (#[trigger] all[i]) < (
        #[trigger] all[j]) by {
            if j < before.len() {
                assert(all[i] == before[i] && all[j] == before[j]);
            } else {
                assert(all[i] == before[i]);
            }
        }
        assert forall|i: int| 0 <= i < all.len() implies 0 <= (#[trigger] all[i]) < k && waiting(
            arcs,
            all[i],
            Seq::empty(),
        ) == 0 by {
            if i < before.len() {
                assert(all[i] == before[i]);
            }
        }
        assert forall|x: int|
            0 <= x < k && waiting(arcs, x, Seq::empty()) == 0 implies #[trigger] all.contains(x) by {
            if x < k - 1 {
                assert(before.contains(x));
                let i = before.index_of(x);
                assert(all[i] == x);
            } else {
                assert(all[before.len() as int] == x);
            }
        }
    }
}

/// Nodes that wait for nothing come first, in their own order: such a node stands before
/// every node that an arc leads to, and before every greater node that waits for
/// nothing.
#[verifier::rlimit(40)]
pub proof fn law_free_nodes_come_first_and_in_order(arcs: Seq<Arc>, n: int, p: int, q: int)
    requires
        arcs_in_range(arcs, n),
        0 <= p < placement(arcs, n).len(),
        0 <= q < placement(arcs, n).len(),
        forall|i: int| 0 <= i < arcs.len() ==> (#[trigger] arcs[i]).1 != placement(arcs, n)[p],
    ensures
        (exists|i: int| 0 <= i < arcs.len() && (#[trigger] arcs[i]).1 == placement(arcs, n)[q])
            ==> p < q,
        !(exists|i: int| 0 <= i < arcs.len() && (#[trigger] arcs[i]).1 == placement(arcs, n)[q])
            && placement(arcs, n)[p] < placement(arcs, n)[q] ==> p < q,
{
    let line = placement(arcs, n);
    let free = roots(arcs, n);
    let none = Seq::<int>::empty();
    lemma_placement(arcs, n);
    lemma_placed_keeps(arcs, n, free, 0);
    lemma_roots_ascend(arcs, n);
    lemma_waiting_positive(arcs, line[p], none);
    lemma_waiting_positive(arcs, line[q], none);
    assert(line.contains(line[p]) && line.contains(line[q]));
    let i = free.index_of(line[p]);
    assert(free.contains(line[p]));
    assert(line[i] == free[i]);
    assert(i == p);
    if exists|k: int| 0 <= k < arcs.len() && (#[trigger] arcs[k]).1 == line[q] {
        let k = choose|k: int| 0 <= k < arcs.len() && (#[trigger] arcs[k]).1 == line[q];
        assert(arcs[k].1 == line[q] && !none.contains(arcs[k].0));
        if q < free.len() {
            assert(line[q] == free[q]);
        }
    } else {
        assert(free.contains(line[q]));
        let j = free.index_of(line[q]);
        assert(line[j] == free[j]);
        assert(j == q);
        if line[p] < line[q] && q <= p {
            if q < p {
                assert(free[q] < free[p]);
            }
        }
    }
}

/// The node at a place is released by the node at a head.
pub open spec fn released_at(arcs: Seq<Arc>, line: Seq<int>, head: int, p: int) -> bool {
    0 <= head < line.len() && released(
        arcs,
        arcs.len() as int,
        line[head],
        line.take(head),
    ).contains(line[p])
}

/// What is appended to the line is appended in the order of the heads that release it.
#[verifier::rlimit(40)]
proof fn lemma_released_in_turn(
    arcs: Seq<Arc>,
    n: int,
    line: Seq<int>,
    head: int,
    p: int,
    q: int,
) -> (r: (int, int))
    requires
        head >= 0,
        line.len() <= p <= q < placed(arcs, n, line, head).len(),
    ensures
        head <= r.0 <= r.1,
        released_at(arcs, placed(arcs, n, line, head), r.0, p),
        released_at(arcs, placed(arcs, n, line, head), r.1, q),
    decreases n - head,
{
    let all = placed(arcs, n, line, head);
    let now = released(arcs, arcs.len() as int, line[head], line.take(head));
    let more = line + now;
    assert(all == placed(arcs, n, more, head + 1));
    lemma_placed_keeps(arcs, n, more, head + 1);
    assert forall|i: int| 0 <= i < more.len() implies all[i] == more[i] by {
        assert(placed(arcs, n, more, head + 1)[i] == more[i]);
    }
    assert(all[head] == line[head]);
    assert(all.take(head) =~= line.take(head));
    if p < more.len() {
        assert(all[p] == now[p - line.len()]);
        assert(released_at(arcs, all, head, p));
    }
    if q < more.len() {
        assert(all[q] == now[q - line.len()]);
        assert(released_at(arcs, all, head, q));
        (head, head)
    } else if p < more.len() {
        let r = lemma_released_in_turn(arcs, n, more, head + 1, q, q);
        (head, r.1)
    } else {
        lemma_released_in_turn(arcs, n, more, head + 1, p, q)
    }
}

/// Nodes come in the order in which they become ready: a node stands before another
/// where everything that it waits for is placed before something that the other waits
/// for.
#[verifier::rlimit(40)]
pub proof fn law_nodes_come_as_they_become_ready(
    arcs: Seq<Arc>,
    n: int,
    p: int,
    q: int,
    m: int,
    i: int,
)
    requires
        arcs_in_range(arcs, n),
        0 <= p < placement(arcs, n).len(),
        0 <= q < placement(arcs, n).len(),
        0 <= m < placement(arcs, n).len(),
        0 <= i < arcs.len(),
        arcs[i] == (placement(arcs, n)[m], placement(arcs, n)[q]),
        forall|j: int|
            0 <= j < arcs.len() && (#[trigger] arcs[j]).1 == placement(arcs, n)[p] ==> placement(
                arcs,
                n,
            ).take(m).contains(arcs[j].0),
    ensures
        p < q,
{
    let line = placement(arcs, n);
    let free = roots(arcs, n);
    let none = Seq::<int>::empty();
    lemma_placement(arcs, n);
    lemma_placed_keeps(arcs, n, free, 0);
    lemma_roots_ascend(arcs, n);
    assert(line.contains(line[p]) && line.contains(line[q]));
    if p >= q {
        lemma_waiting_positive(arcs, line[q], none);
        assert(arcs[i].1 == line[q] && !none.contains(arcs[i].0));
        if q < free.len() {
            assert(line[q] == free[q]);
        }
        if p == q {
            assert(line.take(m).contains(arcs[i].0));
            let k = line.take(m).index_of(arcs[i].0);
            assert(line[k] == line[m]);
        } else {
            let (hq, hp) = lemma_released_in_turn(arcs, n, free, 0, q, p);
            lemma_head_is_new(line, hq);
            lemma_head_is_new(line, hp);
            lemma_released(arcs, line[hq], line.take(hq));
            lemma_released(arcs, line[hp], line.take(hp));
            let through = line.take(hq).push(line[hq]);
            lemma_waiting_positive(arcs, line[q], through);
            assert(through.contains(arcs[i].0));
            let k = through.index_of(arcs[i].0);
            assert(line[k] == line[m]);
            assert(k == m);
            lemma_waiting_positive(arcs, line[p], line.take(hp));
            let j = choose|j: int|
                0 <= j < arcs.len() && (#[trigger] arcs[j]).1 == line[p] && !line.take(
                    hp,
                ).contains(arcs[j].0);
            assert(line.take(m).contains(arcs[j].0));
            let l = line.take(m).index_of(arcs[j].0);
            assert(line.take(hp)[l] == arcs[j].0);
        }
    }
}

proof fn lemma_head_is_new(line: Seq<int>, head: int)
    requires
        line.no_duplicates(),
        0 <= head < line.len(),
    ensures
        !line.take(head).contains(line[head]),
{
    if line.take(head).contains(line[head]) {
        let i = line.take(head).index_of(line[head]);
        assert(line[i] == line[head]);
    }
}

/// The nodes that one node releases come in the order of the last arcs that they waited
/// for.
proof fn lemma_released_by_last_arc(
    arcs: Seq<Arc>,
    k: int,
    u: int,
    done: Seq<int>,
    a: int,
    b: int,
) -> (r: (int, int))
    requires
        0 <= k <= arcs.len(),
        0 <= a < b < released(arcs, k, u, done).len(),
    ensures
        0 <= r.0 < r.1 < k,
        arcs[r.0] == (u, released(arcs, k, u, done)[a]),
        arcs[r.1] == (u, released(arcs, k, u, done)[b]),
        between(arcs.take(r.0 + 1), u, released(arcs, k, u, done)[a]) == waiting(
            arcs,
            released(arcs, k, u, done)[a],
            done,
        ),
        between(arcs.take(r.1 + 1), u, released(arcs, k, u, done)[b]) == waiting(
            arcs,
            released(arcs, k, u, done)[b],
            done,
        ),
    decreases k,
{
    let all = released(arcs, k, u, done);
    let before = released(arcs, k - 1, u, done);
    if b < before.len() {
        assert(all[a] == before[a] && all[b] == before[b]);
        lemma_released_by_last_arc(arcs, k - 1, u, done, a, b)
    } else {
        assert(all[a] == before[a]);
        lemma_released_sound(arcs, k - 1, u, done, a);
        let j = choose|j: int|
            0 < j <= k - 1 && #[trigger] arcs[j - 1] == (u, before[a]) && between(
                arcs.take(j),
                u,
                before[a],
            ) == waiting(arcs, before[a], done);
        (j - 1, k - 1)
    }
}

/// Of the nodes that one node releases, those come first whose last arc from it comes
/// first.
pub proof fn law_released_nodes_come_in_order_of_their_arcs(
    arcs: Seq<Arc>,
    u: int,
    done: Seq<int>,
    a: int,
    b: int,
    i: int,
    j: int,
)
    requires
        !done.contains(u),
        0 <= a < released(arcs, arcs.len() as int, u, done).len(),
        0 <= b < released(arcs, arcs.len() as int, u, done).len(),
        0 <= i < j < arcs.len(),
        arcs[i] == (u, released(arcs, arcs.len() as int, u, done)[a]),
        forall|k: int|
            i < k < arcs.len() ==> (#[trigger] arcs[k]) != (u, released(
                arcs,
                arcs.len() as int,
                u,
                done,
            )[a]),
        arcs[j] == (u, released(arcs, arcs.len() as int, u, done)[b]),
        forall|k: int|
            j < k < arcs.len() ==> (#[trigger] arcs[k]) != (u, released(
                arcs,
                arcs.len() as int,
                u,
                done,
            )[b]),
    ensures
        a < b,
{
    let n = arcs.len() as int;
    let all = released(arcs, n, u, done);
    if b < a {
        let (y, x) = lemma_released_by_last_arc(arcs, n, u, done, b, a);
        assert(x <= i);
        assert(y < j);
        lemma_released(arcs, u, done);
        lemma_waiting_after(arcs, all[b], done, u);
        assert(all.contains(all[b]));
        assert(arcs.take(n) =~= arcs);
        lemma_between_grows(arcs, y + 1, j + 1, u, all[b]);
        lemma_between_grows(arcs, j + 1, n, u, all[b]);
    }
}

} // verus!
