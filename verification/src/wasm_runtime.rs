//! Orchestrator-hosted confined WebAssembly workload mode.
//!
//! When the measured application config selects a wasm workload, the
//! orchestrator runs a composition of wasm components itself instead of handing
//! a bundle to the container runtime. The components are never fused: each runs
//! as its own instance and the orchestrator mediates every edge.

use crate::message;
use crate::message::{Message, Schema};
use crate::order;
use crate::order::Keyed;
use crate::proto::config;
use crate::proto::config::{
    OrchestratorWorkloadConfig, WasmComponentRef, WasmWorkloadConfig, WorkloadKind,
};
use crate::text;
use crate::topology;
use crate::wire;
use vstd::prelude::*;
use vstd::utf8::*;

pub use crate::bundle::{lookup, normalize, unpack_bundle, BundleFiles};
pub use crate::composition::Composition;

verus! {

// ---------------------------------------------------------------------------
// Selecting the workload
// ---------------------------------------------------------------------------

/// The configuration that some bytes stand for: the decoded envelope, or the
/// default where they are no envelope.
pub open spec fn workload_config(bytes: Seq<u8>) -> config::OrchestratorWorkloadConfigView {
    match message::decoded::<OrchestratorWorkloadConfig>(bytes, wire::RECURSION_LIMIT as nat) {
        Some(v) => v,
        None => OrchestratorWorkloadConfig::default_view(),
    }
}

/// Decodes the workload-selection envelope from the launcher-provided
/// application config.
///
/// Lenient by design: arbitrary legacy container-config bytes that do not decode
/// as this envelope decode to the default, so that [`wasm_config`] returns `None`
/// and the caller runs the container path over the raw bytes.
pub fn decode_workload_config(application_config: &[u8]) -> (c: OrchestratorWorkloadConfig)
    ensures
        c@ == workload_config(application_config@),
{
    match message::decode::<OrchestratorWorkloadConfig>(application_config, wire::RECURSION_LIMIT) {
        Ok(c) => c,
        Err(_) => OrchestratorWorkloadConfig::empty(),
    }
}

/// Returns the wasm workload configuration iff this config selects wasm mode.
pub fn wasm_config(config: &OrchestratorWorkloadConfig) -> (wasm: Option<&WasmWorkloadConfig>)
    ensures
        wasm is Some <==> config@.workload_kind == WorkloadKind::Wasm.number()
            && config@.wasm is Some,
        wasm matches Some(w) ==> config@.wasm == Some(w@),
{
    match config.workload_kind() {
        WorkloadKind::Wasm => match &config.wasm {
            Some(w) => Some(w),
            None => None,
        },
        _ => None,
    }
}

/// An envelope that was encoded is decoded as it was.
pub proof fn law_workload_config_round_trip(c: config::OrchestratorWorkloadConfigView)
    requires
        message::encoding::<OrchestratorWorkloadConfig>(c).len() <= u64::MAX,
    ensures
        workload_config(message::encoding::<OrchestratorWorkloadConfig>(c)) == c,
{
    message::law_decode_encode::<OrchestratorWorkloadConfig>(c, wire::RECURSION_LIMIT as nat);
}

// ---------------------------------------------------------------------------
// Instantiation order
// ---------------------------------------------------------------------------

/// The names of the components, in the order of the configuration.
pub open spec fn component_names(components: Seq<config::WasmComponentRefView>) -> Seq<Seq<char>> {
    Seq::new(components.len(), |i: int| components[i].id)
}

/// A sorted list without the repetitions.
pub open spec fn deduped(names: Seq<Seq<char>>) -> Seq<Seq<char>>
    decreases names.len(),
{
    if names.len() == 0 {
        names
    } else {
        let before = deduped(names.drop_last());
        if before.len() > 0 && before.last() == names.last() {
            before
        } else {
            before.push(names.last())
        }
    }
}

/// The distinct component names in byte-wise order.
pub open spec fn node_names(components: Seq<config::WasmComponentRefView>) -> Seq<Seq<char>> {
    deduped(order::sorted::<String>(component_names(components)))
}

/// The edges between two components, as arcs between their positions in
/// `names`. An edge with an end that is no component constrains nothing.
pub open spec fn component_arcs(
    names: Seq<Seq<char>>,
    edges: Seq<config::WasmCompositionEdgeView>,
) -> Seq<topology::Arc>
    decreases edges.len(),
{
    if edges.len() == 0 {
        Seq::empty()
    } else {
        let before = component_arcs(names, edges.drop_last());
        match (names.index_of_first(edges.last().from), names.index_of_first(edges.last().to)) {
            (Some(from), Some(to)) => before.push((from, to)),
            _ => before,
        }
    }
}

/// The names at some positions.
pub open spec fn names_at(names: Seq<Seq<char>>, line: Seq<int>) -> Seq<Seq<char>> {
    Seq::new(line.len(), |i: int| names[line[i]])
}

/// The order in which the components of a composition are instantiated.
pub open spec fn instantiation_order(c: config::WasmWorkloadConfigView) -> Seq<Seq<char>> {
    let names = node_names(c.components);
    names_at(
        names,
        topology::placement(component_arcs(names, c.edges), names.len() as int),
    )
}

/// A listing of all components, each once, in which every producer precedes its
/// consumers.
pub open spec fn is_instantiation_order(
    c: config::WasmWorkloadConfigView,
    order: Seq<Seq<char>>,
) -> bool {
    &&& order.no_duplicates()
    &&& forall|name: Seq<char>|
        order.contains(name) <==> #[trigger] component_names(c.components).contains(name)
    &&& forall|e: int, p: int|
        0 <= e < c.edges.len() && 0 <= p < order.len() && #[trigger] order[p] == (
        #[trigger] c.edges[e]).to && component_names(c.components).contains(c.edges[e].from)
            ==> order.take(p).contains(c.edges[e].from)
}

proof fn lemma_sorted_names(names: Seq<Seq<char>>)
    ensures
        order::in_key_order::<String>(order::sorted::<String>(names)),
        forall|name: Seq<char>|
            order::sorted::<String>(names).contains(name) <==> #[trigger] names.contains(name),
{
    broadcast use vstd::seq_lib::group_to_multiset_ensures;

    order::lemma_sorted_is_ordered_permutation::<String>(names);
    let sorted = order::sorted::<String>(names);
    assert forall|name: Seq<char>| sorted.contains(name) <==> #[trigger] names.contains(name) by {
        assert(sorted.contains(name) <==> sorted.to_multiset().count(name) > 0);
        assert(names.contains(name) <==> names.to_multiset().count(name) > 0);
    }
}

proof fn lemma_deduped(names: Seq<Seq<char>>)
    requires
        order::in_key_order::<String>(names),
    ensures
        deduped(names).no_duplicates(),
        forall|name: Seq<char>| deduped(names).contains(name) <==> #[trigger] names.contains(name),
        names.len() > 0 ==> deduped(names).len() > 0 && deduped(names).last() == names.last(),
    decreases names.len(),
{
    if names.len() > 0 {
        let init = names.drop_last();
        let last = names.last();
        let before = deduped(init);
        let all = deduped(names);
        assert forall|i: int, j: int| 0 <= i < j < init.len() implies !order::key_lt(
            String::key_of(#[trigger] init[j]),
            String::key_of(#[trigger] init[i]),
        ) by {
            assert(init[i] == names[i] && init[j] == names[j]);
        }
        lemma_deduped(init);
        assert forall|name: Seq<char>| all.contains(name) <==> #[trigger] names.contains(name) by {
            if names.contains(name) {
                let i = choose|i: int| 0 <= i < names.len() && names[i] == name;
                if i < init.len() {
                    assert(init[i] == name);
                    assert(init.contains(name));
                    assert(before.contains(name));
                    let k = choose|k: int| 0 <= k < before.len() && before[k] == name;
                    assert(all[k] == name);
                } else {
                    assert(all.last() == name);
                    assert(all[all.len() - 1] == name);
                }
            }
            if all.contains(name) {
                let k = choose|k: int| 0 <= k < all.len() && all[k] == name;
                if k < before.len() {
                    assert(before[k] == name);
                    assert(before.contains(name));
                    assert(init.contains(name));
                    let i = choose|i: int| 0 <= i < init.len() && init[i] == name;
                    assert(names[i] == name);
                } else {
                    assert(names[names.len() - 1] == name);
                }
            }
        }
        if !(before.len() > 0 && before.last() == last) {
            assert(!before.contains(last)) by {
                if before.contains(last) {
                    assert(init.contains(last));
                    let a = choose|a: int| 0 <= a < init.len() && init[a] == last;
                    let b = init.len() - 1;
                    assert(before.last() == init[b]);
                    assert(names[a] == last && names[b] == init[b]);
                    assert(names[names.len() - 1] == last);
                    order::lemma_key_lt_total(String::key_of(names[a]), String::key_of(names[b]));
                    assert(!order::key_lt(
                        String::key_of(names[names.len() - 1]),
                        String::key_of(names[b]),
                    ));
                    if a < b {
                        assert(!order::key_lt(String::key_of(names[b]), String::key_of(names[a])));
                        assert(String::key_of(names[a])[0] == String::key_of(names[b])[0]);
                        text::lemma_utf8_injective(names[a], names[b]);
                    }
                }
            }
            assert forall|i: int, j: int|
                0 <= i < all.len() && 0 <= j < all.len() && i != j implies all[i] != all[j] by {
                if i < before.len() && j >= before.len() {
                    assert(before.contains(all[i]));
                } else if i >= before.len() && j < before.len() {
                    assert(before.contains(all[j]));
                }
            }
        }
    }
}

/// The node names are distinct and are those of the components.
proof fn lemma_node_names(components: Seq<config::WasmComponentRefView>)
    ensures
        node_names(components).no_duplicates(),
        forall|name: Seq<char>|
            node_names(components).contains(name) <==> #[trigger] component_names(
                components,
            ).contains(name),
{
    let names = component_names(components);
    lemma_sorted_names(names);
    lemma_deduped(order::sorted::<String>(names));
    assert forall|name: Seq<char>|
        node_names(components).contains(name) <==> #[trigger] names.contains(name) by {
        assert(order::sorted::<String>(names).contains(name) <==> names.contains(name));
    }
}

/// Every end of every arc is a node.
proof fn lemma_component_arcs(names: Seq<Seq<char>>, edges: Seq<config::WasmCompositionEdgeView>)
    ensures
        topology::arcs_in_range(component_arcs(names, edges), names.len() as int),
    decreases edges.len(),
{
    if edges.len() > 0 {
        let before = component_arcs(names, edges.drop_last());
        let all = component_arcs(names, edges);
        lemma_component_arcs(names, edges.drop_last());
        names.index_of_first_ensures(edges.last().from);
        names.index_of_first_ensures(edges.last().to);
        assert forall|i: int| 0 <= i < all.len() implies 0 <= (#[trigger] all[i]).0 < names.len()
            && 0 <= all[i].1 < names.len() by {
            if i < before.len() {
                assert(all[i] == before[i]);
            }
        }
    }
}

/// Every arc stands for an edge.
proof fn lemma_arc_is_edge(
    names: Seq<Seq<char>>,
    edges: Seq<config::WasmCompositionEdgeView>,
    i: int,
) -> (e: int)
    requires
        0 <= i < component_arcs(names, edges).len(),
    ensures
        0 <= e < edges.len(),
        edges[e].from == names[component_arcs(names, edges)[i].0],
        edges[e].to == names[component_arcs(names, edges)[i].1],
    decreases edges.len(),
{
    let init = edges.drop_last();
    let before = component_arcs(names, init);
    if i < before.len() {
        assert(component_arcs(names, edges)[i] == before[i]);
        lemma_arc_is_edge(names, init, i)
    } else {
        names.index_of_first_ensures(edges.last().from);
        names.index_of_first_ensures(edges.last().to);
        edges.len() - 1
    }
}

/// Every edge between two components has an arc.
proof fn lemma_edge_is_arc(
    names: Seq<Seq<char>>,
    edges: Seq<config::WasmCompositionEdgeView>,
    e: int,
) -> (i: int)
    requires
        0 <= e < edges.len(),
        names.contains(edges[e].from),
        names.contains(edges[e].to),
    ensures
        0 <= i < component_arcs(names, edges).len(),
        edges[e].from == names[component_arcs(names, edges)[i].0],
        edges[e].to == names[component_arcs(names, edges)[i].1],
    decreases edges.len(),
{
    let init = edges.drop_last();
    let before = component_arcs(names, init);
    if e < init.len() {
        assert(init[e] == edges[e]);
        let i = lemma_edge_is_arc(names, init, e);
        assert(component_arcs(names, edges)[i] == before[i]);
        i
    } else {
        names.index_of_first_ensures(edges.last().from);
        names.index_of_first_ensures(edges.last().to);
        before.len() as int
    }
}

/// An order of the graph is an order of the components.
proof fn lemma_order_to_names(c: config::WasmWorkloadConfigView, line: Seq<int>)
    requires
        topology::is_order(
            component_arcs(node_names(c.components), c.edges),
            node_names(c.components).len() as int,
            line,
        ),
    ensures
        is_instantiation_order(c, names_at(node_names(c.components), line)),
{
    let names = node_names(c.components);
    let arcs = component_arcs(names, c.edges);
    let order = names_at(names, line);
    lemma_node_names(c.components);
    lemma_component_arcs(names, c.edges);
    assert forall|i: int| 0 <= i < line.len() implies 0 <= #[trigger] line[i] < names.len() by {
        assert(line.contains(line[i]));
    }
    assert forall|i: int, j: int|
        0 <= i < order.len() && 0 <= j < order.len() && i != j implies order[i] != order[j] by {
        assert(line[i] != line[j]);
    }
    assert forall|name: Seq<char>|
        order.contains(name) <==> #[trigger] component_names(c.components).contains(name) by {
        if order.contains(name) {
            let i = choose|i: int| 0 <= i < order.len() && order[i] == name;
            assert(names[line[i]] == name);
            assert(names.contains(name));
        }
        if component_names(c.components).contains(name) {
            assert(names.contains(name));
            let k = choose|k: int| 0 <= k < names.len() && names[k] == name;
            assert(line.contains(k));
            let i = choose|i: int| 0 <= i < line.len() && line[i] == k;
            assert(order[i] == name);
        }
    }
    assert forall|e: int, p: int|
        0 <= e < c.edges.len() && 0 <= p < order.len() && #[trigger] order[p] == (
        #[trigger] c.edges[e]).to && component_names(c.components).contains(
            c.edges[e].from,
        ) implies order.take(p).contains(c.edges[e].from) by {
        let edge = c.edges[e];
        assert(order[p] == names[line[p]]);
        assert(names.contains(edge.to));
        assert(names.contains(edge.from));
        let i = lemma_edge_is_arc(names, c.edges, e);
        assert(line[p] == arcs[i].1);
        assert(line.take(p).contains(arcs[i].0));
        let q = choose|q: int| 0 <= q < line.take(p).len() && line.take(p)[q] == arcs[i].0;
        assert(order.take(p)[q] == edge.from);
    }
}

/// An order of the components is an order of the graph.
proof fn lemma_order_from_names(c: config::WasmWorkloadConfigView, order: Seq<Seq<char>>)
    requires
        is_instantiation_order(c, order),
    ensures
        exists|line: Seq<int>|
            topology::is_order(
                component_arcs(node_names(c.components), c.edges),
                node_names(c.components).len() as int,
                line,
            ),
{
    let names = node_names(c.components);
    let arcs = component_arcs(names, c.edges);
    lemma_node_names(c.components);
    lemma_component_arcs(names, c.edges);
    let line = Seq::new(order.len(), |i: int| names.index_of_first(order[i])->0);
    assert forall|i: int| 0 <= i < order.len() implies 0 <= #[trigger] line[i] < names.len()
        && names[line[i]] == order[i] by {
        assert(order.contains(order[i]));
        assert(component_names(c.components).contains(order[i]));
        assert(names.contains(order[i]));
        names.index_of_first_ensures(order[i]);
    }
    assert forall|i: int, j: int|
        0 <= i < line.len() && 0 <= j < line.len() && i != j implies line[i] != line[j] by {
        assert(order[i] != order[j]);
    }
    assert forall|x: int| line.contains(x) <==> 0 <= x < names.len() by {
        if line.contains(x) {
            let i = choose|i: int| 0 <= i < line.len() && line[i] == x;
        }
        if 0 <= x < names.len() {
            assert(names.contains(names[x]));
            assert(component_names(c.components).contains(names[x]));
            assert(order.contains(names[x]));
            let i = choose|i: int| 0 <= i < order.len() && order[i] == names[x];
            assert(names[line[i]] == names[x]);
            assert(line[i] == x);
        }
    }
    assert forall|i: int, p: int|
        0 <= i < arcs.len() && 0 <= p < line.len() && #[trigger] line[p] == (
        #[trigger] arcs[i]).1 implies line.take(p).contains(arcs[i].0) by {
        let e = lemma_arc_is_edge(names, c.edges, i);
        assert(order[p] == c.edges[e].to);
        assert(names.contains(names[arcs[i].0]));
        assert(component_names(c.components).contains(c.edges[e].from));
        assert(order.take(p).contains(c.edges[e].from));
        let q = choose|q: int| 0 <= q < order.take(p).len() && order.take(p)[q] == c.edges[e].from;
        assert(order[q] == names[arcs[i].0]);
        assert(names[line[q]] == names[arcs[i].0]);
        assert(line.take(p)[q] == arcs[i].0);
    }
    assert(topology::is_order(arcs, names.len() as int, line));
}

/// An edge leads from one component of a walk to the next.
pub open spec fn feeds_next(
    c: config::WasmWorkloadConfigView,
    walk: Seq<Seq<char>>,
    i: int,
) -> bool {
    exists|e: int|
        0 <= e < c.edges.len() && (#[trigger] c.edges[e]).from == walk[i] && c.edges[e].to
            == walk[i + 1] && component_names(c.components).contains(c.edges[e].from)
            && component_names(c.components).contains(c.edges[e].to)
}

/// A closed walk along the edges between components.
pub open spec fn is_feedback(c: config::WasmWorkloadConfigView, walk: Seq<Seq<char>>) -> bool {
    &&& walk.len() >= 2
    &&& walk.first() == walk.last()
    &&& forall|i: int| 0 <= i < walk.len() - 1 ==> #[trigger] feeds_next(c, walk, i)
}

/// A composition can be ordered exactly where no component feeds itself, be it
/// through others.
pub proof fn law_order_unless_feedback(c: config::WasmWorkloadConfigView)
    ensures
        (exists|o: Seq<Seq<char>>| is_instantiation_order(c, o)) <==> !(exists|
            walk: Seq<Seq<char>>,
        | is_feedback(c, walk)),
{
    let names = node_names(c.components);
    let arcs = component_arcs(names, c.edges);
    let n = names.len() as int;
    lemma_node_names(c.components);
    lemma_component_arcs(names, c.edges);
    topology::law_order_unless_cycle(arcs, n);
    if exists|o: Seq<Seq<char>>| is_instantiation_order(c, o) {
        let o = choose|o: Seq<Seq<char>>| is_instantiation_order(c, o);
        lemma_order_from_names(c, o);
        assert forall|walk: Seq<Seq<char>>| !is_feedback(c, walk) by {
            if is_feedback(c, walk) {
                lemma_feedback_is_cycle(c, walk);
            }
        }
    } else {
        if exists|line: Seq<int>| topology::is_order(arcs, n, line) {
            let line = choose|line: Seq<int>| topology::is_order(arcs, n, line);
            lemma_order_to_names(c, line);
        }
        let walk = choose|walk: Seq<int>| topology::is_cycle(arcs, walk);
        let named = names_at(names, walk);
        assert forall|i: int| 0 <= i < named.len() - 1 implies #[trigger] feeds_next(
            c,
            named,
            i,
        ) by {
            assert(topology::linked(arcs, walk, i));
            let k = choose|k: int| 0 <= k < arcs.len() && arcs[k] == (walk[i], walk[i + 1]);
            let e = lemma_arc_is_edge(names, c.edges, k);
            assert(names.contains(names[arcs[k].0]));
            assert(names.contains(names[arcs[k].1]));
            assert(c.edges[e].from == named[i]);
        }
        assert(is_feedback(c, named));
    }
}

proof fn lemma_feedback_is_cycle(c: config::WasmWorkloadConfigView, walk: Seq<Seq<char>>)
    requires
        is_feedback(c, walk),
    ensures
        exists|w: Seq<int>|
            topology::is_cycle(component_arcs(node_names(c.components), c.edges), w),
{
    let names = node_names(c.components);
    let arcs = component_arcs(names, c.edges);
    lemma_node_names(c.components);
    lemma_component_arcs(names, c.edges);
    let w = Seq::new(walk.len(), |i: int| names.index_of_first(walk[i])->0);
    assert forall|i: int| 0 <= i < w.len() - 1 implies #[trigger] topology::linked(arcs, w, i) by {
        assert(feeds_next(c, walk, i));
        let e = choose|e: int|
            0 <= e < c.edges.len() && (#[trigger] c.edges[e]).from == walk[i] && c.edges[e].to
                == walk[i + 1] && component_names(c.components).contains(c.edges[e].from)
                && component_names(c.components).contains(c.edges[e].to);
        let k = lemma_edge_is_arc(names, c.edges, e);
        names.index_of_first_ensures(walk[i]);
        names.index_of_first_ensures(walk[i + 1]);
        assert(arcs[k] == (w[i], w[i + 1]));
    }
    assert(topology::is_cycle(arcs, w));
}

/// The graph of the composition has a cycle.
#[derive(Debug, Clone, Copy, PartialEq, Eq)]
pub struct CycleError;

fn name_position(names: &Vec<String>, name: &String) -> (i: Option<usize>)
    requires
        order::views(names@).no_duplicates(),
    ensures
        match i {
            Some(k) => order::views(names@).index_of_first(name@) == Some(k as int),
            None => order::views(names@).index_of_first(name@) is None,
        },
        i matches Some(k) ==> k < names@.len(),
{
    let ghost all = order::views(names@);
    let mut k: usize = 0;
    while k < names.len()
        invariant
            k <= names@.len(),
            all == order::views(names@),
            forall|j: int| 0 <= j < k ==> all[j] != name@,
        decreases names@.len() - k,
    {
        if names[k] == *name {
            proof {
                all.index_of_first_ensures(name@);
                assert(all[k as int] == name@);
                assert(all.contains(name@));
            }
            return Some(k);
        }
        assert(all[k as int] == names@[k as int]@);
        k = k + 1;
    }
    proof {
        all.index_of_first_ensures(name@);
    }
    None
}

/// The distinct component names in byte-wise order.
fn distinct_names(components: &Vec<WasmComponentRef>) -> (names: Vec<String>)
    ensures
        order::views(names@) == node_names(order::views(components@)),
{
    let ghost refs = order::views(components@);
    let mut ids: Vec<String> = Vec::new();
    let mut i: usize = 0;
    assert(order::views(ids@) =~= component_names(refs).take(0));
    while i < components.len()
        invariant
            i <= components@.len(),
            refs == order::views(components@),
            order::views(ids@) == component_names(refs).take(i as int),
        decreases components@.len() - i,
    {
        let id = components[i].id.clone();
        proof {
            let all = component_names(refs);
            assert(all.take(i + 1) =~= all.take(i as int).push(all[i as int]));
            assert(order::views(ids@.push(id)) =~= order::views(ids@).push(id@));
        }
        ids.push(id);
        i = i + 1;
    }
    assert(order::views(ids@) =~= component_names(refs));
    let sorted = order::stable_sort(ids.as_slice());
    let ghost all = order::views(sorted@);
    let mut names: Vec<String> = Vec::new();
    let mut k: usize = 0;
    proof {
        assert(all.take(0) =~= Seq::empty());
        assert(order::views(names@) =~= deduped(all.take(0)));
    }
    while k < sorted.len()
        invariant
            k <= sorted@.len(),
            all == order::views(sorted@),
            order::views(names@) == deduped(all.take(k as int)),
        decreases sorted@.len() - k,
    {
        proof {
            assert(all.take(k + 1).drop_last() =~= all.take(k as int));
            assert(all.take(k + 1).last() == sorted@[k as int]@);
        }
        let n: usize = names.len();
        let known = n > 0 && names[n - 1] == sorted[k];
        assert(known == (order::views(names@).len() > 0 && order::views(names@).last()
            == sorted@[k as int]@)) by {
            if n > 0 {
                assert(order::views(names@).last() == names@[n - 1]@);
            }
        }
        if !known {
            let name = sorted[k].clone();
            assert(order::views(names@.push(name)) =~= order::views(names@).push(name@));
            names.push(name);
        }
        k = k + 1;
    }
    assert(all.take(sorted@.len() as int) =~= all);
    names
}

/// Orders component ids so every producer precedes its consumers.
pub fn topo_order(wasm: &WasmWorkloadConfig) -> (r: Result<Vec<String>, CycleError>)
    ensures
        r is Ok <==> exists|o: Seq<Seq<char>>| is_instantiation_order(wasm@, o),
        r matches Ok(ids) ==> order::views(ids@) == instantiation_order(wasm@)
            && is_instantiation_order(wasm@, order::views(ids@)),
{
    let names = distinct_names(&wasm.components);
    let ghost all = order::views(names@);
    let ghost edges = order::views(wasm.edges@);
    proof {
        lemma_node_names(wasm@.components);
    }
    let mut arcs: Vec<(usize, usize)> = Vec::new();
    let mut i: usize = 0;
    proof {
        assert(edges.take(0) =~= Seq::empty());
        assert(topology::arcs_of(arcs@) =~= component_arcs(all, edges.take(0)));
    }
    while i < wasm.edges.len()
        invariant
            i <= wasm.edges@.len(),
            all == order::views(names@),
            all.no_duplicates(),
            edges == order::views(wasm.edges@),
            topology::arcs_of(arcs@) == component_arcs(all, edges.take(i as int)),
        decreases wasm.edges@.len() - i,
    {
        let edge = &wasm.edges[i];
        proof {
            assert(edges.take(i + 1).drop_last() =~= edges.take(i as int));
            assert(edges.take(i + 1).last() == edge@);
        }
        let from = name_position(&names, &edge.from);
        let to = name_position(&names, &edge.to);
        match (from, to) {
            (Some(f), Some(t)) => {
                assert(topology::arcs_of(arcs@.push((f, t))) =~= topology::arcs_of(arcs@).push(
                    (f as int, t as int),
                ));
                arcs.push((f, t));
            },
            _ => {},
        }
        i = i + 1;
    }
    proof {
        assert(edges.take(wasm.edges@.len() as int) =~= edges);
        lemma_component_arcs(all, edges);
    }
    let n: usize = names.len();
    let line = topology::place(&arcs, n);
    let ghost placed = topology::nodes_of(line@);
    proof {
        topology::lemma_placement(topology::arcs_of(arcs@), n as int);
        topology::lemma_line_end(topology::arcs_of(arcs@), n as int, placed);
    }
    if line.len() != n {
        proof {
            assert forall|o: Seq<Seq<char>>| !is_instantiation_order(wasm@, o) by {
                if is_instantiation_order(wasm@, o) {
                    lemma_order_from_names(wasm@, o);
                }
            }
        }
        return Err(CycleError);
    }
    proof {
        lemma_order_to_names(wasm@, placed);
    }
    let mut ids: Vec<String> = Vec::new();
    let mut k: usize = 0;
    assert(order::views(ids@) =~= names_at(all, placed).take(0));
    while k < line.len()
        invariant
            k <= line@.len(),
            all == order::views(names@),
            placed == topology::nodes_of(line@),
            forall|x: int| placed.contains(x) <==> 0 <= x < all.len(),
            order::views(ids@) == names_at(all, placed).take(k as int),
        decreases line@.len() - k,
    {
        proof {
            assert(placed[k as int] == line@[k as int]);
            assert(placed.contains(placed[k as int]));
        }
        let at: usize = line[k];
        let id = names[at].clone();
        proof {
            let whole = names_at(all, placed);
            assert(whole.take(k + 1) =~= whole.take(k as int).push(whole[k as int]));
            assert(order::views(ids@.push(id)) =~= order::views(ids@).push(id@));
            assert(whole[k as int] == id@);
        }
        ids.push(id);
        k = k + 1;
    }
    assert(order::views(ids@) =~= names_at(all, placed));
    Ok(ids)
}

// ---------------------------------------------------------------------------
// Laws
// ---------------------------------------------------------------------------

/// Bytes that are no envelope stand for one that selects nothing.
pub proof fn law_foreign_bytes_select_nothing(bytes: Seq<u8>)
    requires
        message::decoded::<OrchestratorWorkloadConfig>(
            bytes,
            wire::RECURSION_LIMIT as nat,
        ) is None,
    ensures
        workload_config(bytes).workload_kind == 0,
        workload_config(bytes).wasm is None,
{
}

proof fn lemma_deduped_in_order(names: Seq<Seq<char>>)
    requires
        order::in_key_order::<String>(names),
    ensures
        order::in_key_order::<String>(deduped(names)),
    decreases names.len(),
{
    if names.len() > 0 {
        let init = names.drop_last();
        let before = deduped(init);
        let all = deduped(names);
        assert forall|i: int, j: int| 0 <= i < j < init.len() implies !order::key_lt(
            String::key_of(#[trigger] init[j]),
            String::key_of(#[trigger] init[i]),
        ) by {
            assert(init[i] == names[i] && init[j] == names[j]);
        }
        lemma_deduped_in_order(init);
        lemma_deduped(init);
        assert forall|i: int, j: int| 0 <= i < j < all.len() implies !order::key_lt(
            String::key_of(#[trigger] all[j]),
            String::key_of(#[trigger] all[i]),
        ) by {
            assert(all[i] == before[i]);
            if j < before.len() {
                assert(all[j] == before[j]);
            } else {
                assert(before.contains(before[i]));
                assert(init.contains(before[i]));
                let m = choose|m: int| 0 <= m < init.len() && init[m] == before[i];
                assert(names[m] == all[i]);
                assert(names[names.len() - 1] == all[j]);
            }
        }
    }
}

/// An edge from a component leads to the component of that name.
pub open spec fn is_fed(c: config::WasmWorkloadConfigView, name: Seq<char>) -> bool {
    exists|e: int|
        0 <= e < c.edges.len() && (#[trigger] c.edges[e]).to == name && component_names(
            c.components,
        ).contains(c.edges[e].from)
}

/// Ties are sorted: a component that no other feeds is instantiated before every one
/// that is fed, and before every other such component whose name comes later
/// byte-wise.
#[verifier::rlimit(40)]
pub proof fn law_unfed_components_come_first_and_sorted(
    c: config::WasmWorkloadConfigView,
    p: int,
    q: int,
)
    requires
        0 <= p < instantiation_order(c).len(),
        0 <= q < instantiation_order(c).len(),
        !is_fed(c, instantiation_order(c)[p]),
    ensures
        is_fed(c, instantiation_order(c)[q]) ==> p < q,
        !is_fed(c, instantiation_order(c)[q]) && order::bytes_lt(
            encode_utf8(instantiation_order(c)[p]),
            encode_utf8(instantiation_order(c)[q]),
        ) ==> p < q,
{
    let names = node_names(c.components);
    let arcs = component_arcs(names, c.edges);
    let n = names.len() as int;
    let line = topology::placement(arcs, n);
    let order = instantiation_order(c);
    lemma_node_names(c.components);
    lemma_component_arcs(names, c.edges);
    topology::lemma_placement(arcs, n);
    assert(line.contains(line[p]) && line.contains(line[q]));
    assert forall|i: int| 0 <= i < arcs.len() implies (#[trigger] arcs[i]).1 != line[p] by {
        if arcs[i].1 == line[p] {
            let e = lemma_arc_is_edge(names, c.edges, i);
            assert(names.contains(names[arcs[i].0]));
            assert(c.edges[e].to == order[p]);
        }
    }
    topology::law_free_nodes_come_first_and_in_order(arcs, n, p, q);
    if is_fed(c, order[q]) {
        let e = choose|e: int|
            0 <= e < c.edges.len() && (#[trigger] c.edges[e]).to == order[q] && component_names(
                c.components,
            ).contains(c.edges[e].from);
        assert(names[line[q]] == order[q]);
        assert(names.contains(c.edges[e].to));
        assert(names.contains(c.edges[e].from));
        let i = lemma_edge_is_arc(names, c.edges, e);
        assert(arcs[i].1 == line[q]);
    } else {
        assert forall|i: int| 0 <= i < arcs.len() implies (#[trigger] arcs[i]).1 != line[q] by {
            if arcs[i].1 == line[q] {
                let e = lemma_arc_is_edge(names, c.edges, i);
                assert(names.contains(names[arcs[i].0]));
                assert(c.edges[e].to == order[q]);
            }
        }
        let a = encode_utf8(order[p]);
        let b = encode_utf8(order[q]);
        if order::bytes_lt(a, b) {
            lemma_sorted_names(component_names(c.components));
            lemma_deduped_in_order(order::sorted::<String>(component_names(c.components)));
            order::lemma_bytes_lt_total(a, b);
            let ka = String::key_of(names[line[p]]);
            let kb = String::key_of(names[line[q]]);
            assert(ka.take(0) =~= kb.take(0));
            assert(ka[0] == a && kb[0] == b);
            order::law_keys_are_ordered_by_the_first_difference(ka, kb, 0);
            if line[q] < line[p] {
                assert(!order::key_lt(ka, kb));
            }
            assert(line[p] != line[q]);
        }
    }
}

/// Components are instantiated as their producers are: one that is fed comes before
/// another where everything that feeds it comes before something that feeds the other.
#[verifier::rlimit(40)]
pub proof fn law_components_come_as_they_become_ready(
    c: config::WasmWorkloadConfigView,
    p: int,
    q: int,
    m: int,
    e: int,
)
    requires
        0 <= p < instantiation_order(c).len(),
        0 <= q < instantiation_order(c).len(),
        0 <= m < instantiation_order(c).len(),
        0 <= e < c.edges.len(),
        c.edges[e].from == instantiation_order(c)[m],
        c.edges[e].to == instantiation_order(c)[q],
        forall|j: int|
            0 <= j < c.edges.len() && (#[trigger] c.edges[j]).to == instantiation_order(c)[p]
                && component_names(c.components).contains(c.edges[j].from) ==> instantiation_order(
                c,
            ).take(m).contains(c.edges[j].from),
    ensures
        p < q,
{
    let names = node_names(c.components);
    let arcs = component_arcs(names, c.edges);
    let n = names.len() as int;
    let line = topology::placement(arcs, n);
    let order = instantiation_order(c);
    lemma_node_names(c.components);
    lemma_component_arcs(names, c.edges);
    topology::lemma_placement(arcs, n);
    assert(line.contains(line[p]) && line.contains(line[q]) && line.contains(line[m]));
    assert(names.contains(names[line[m]]) && names.contains(names[line[q]]));
    let i = lemma_edge_is_arc(names, c.edges, e);
    assert(arcs[i] == (line[m], line[q]));
    assert forall|j: int|
        0 <= j < arcs.len() && (#[trigger] arcs[j]).1 == line[p] implies line.take(m).contains(
    arcs[j].0) by {
        let k = lemma_arc_is_edge(names, c.edges, j);
        assert(c.edges[k].to == order[p]);
        assert(names.contains(names[arcs[j].0]));
        assert(order.take(m).contains(c.edges[k].from));
        let l = order.take(m).index_of(c.edges[k].from);
        assert(line.contains(line[l]));
        assert(names[line[l]] == names[arcs[j].0]);
        assert(line.take(m)[l] == arcs[j].0);
    }
    topology::law_nodes_come_as_they_become_ready(arcs, n, p, q, m, i);
}

} // verus!
