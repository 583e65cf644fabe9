//! The numbers of the fields of the messages.

use crate::message;
use crate::message::Schema;
use crate::proto::attestation::{
    Any, AnyView, ContainerLayerData, ContainerLayerDataView, Event, EventView, RawDigest,
    RawDigestView, SystemLayerData, SystemLayerDataView, WasmWorkloadLayerData,
    WasmWorkloadLayerDataView,
};
use crate::proto::claim::{
    Enforcement, Provenance, RandomGrant, StdioGrant, ComponentClaim, ComponentClaimView,
    CompositionGraph, CompositionGraphView, Edge, EdgeView, GrantedWasiCapability,
    GrantedWasiCapabilityView, Preopen, PreopenView, RuntimeProperties, RuntimePropertiesView,
    WasiRuntimeGrant, WasiRuntimeGrantView, WasmCapabilityClaim, WasmCapabilityClaimView,
    WasmRuntimeInfo, WasmRuntimeInfoView,
};
use crate::proto::config::{
    WorkloadKind, OrchestratorWorkloadConfig, OrchestratorWorkloadConfigView, WasmComponentRef,
    WasmComponentRefView, WasmCompositionEdge, WasmCompositionEdgeView, WasmWorkloadConfig,
    WasmWorkloadConfigView,
};
use crate::proto::keys::{
    ProtectedResponse, ProtectedResponseView,
};
use crate::wire;
use vstd::prelude::*;
use vstd::utf8::*;

verus! {

/// A field that holds a text.
pub open spec fn text_in(number: u32, s: Seq<char>) -> wire::FieldView {
    wire::FieldView { tag: number, value: wire::WireView::Bytes(encode_utf8(s)) }
}

/// A field that holds bytes.
pub open spec fn bytes_in(number: u32, b: Seq<u8>) -> wire::FieldView {
    wire::FieldView { tag: number, value: wire::WireView::Bytes(b) }
}

/// A field that holds a number.
pub open spec fn number_in(number: u32, n: u64) -> wire::FieldView {
    wire::FieldView { tag: number, value: wire::WireView::Varint(n) }
}

/// A field that holds a message.
pub open spec fn message_in<M: Schema>(number: u32, v: M::V) -> wire::FieldView {
    wire::FieldView { tag: number, value: wire::WireView::Bytes(message::encoding::<M>(v)) }
}

/// The numbers of the fields are between two numbers, and none comes before a smaller
/// one.
pub open spec fn in_number_order(fields: Seq<wire::FieldView>, low: u32, high: u32) -> bool {
    &&& forall|i: int| 0 <= i < fields.len() ==> low <= (#[trigger] fields[i]).tag <= high
    &&& forall|i: int, j: int|
        0 <= i < j < fields.len() ==> (#[trigger] fields[i]).tag <= (#[trigger] fields[j]).tag
}

proof fn lemma_joined(
    a: Seq<wire::FieldView>,
    b: Seq<wire::FieldView>,
    low: u32,
    end: u32,
    start: u32,
    high: u32,
)
    requires
        in_number_order(a, low, end),
        in_number_order(b, start, high),
        low <= end < start <= high,
    ensures
        in_number_order(a + b, low, high),
{
    let all = a + b;
    assert forall|i: int| 0 <= i < all.len() implies low <= (#[trigger] all[i]).tag <= high by {
        if i < a.len() {
            assert(all[i] == a[i]);
        } else {
            assert(all[i] == b[i - a.len()]);
        }
    }
    assert forall|i: int, j: int| 0 <= i < j < all.len() implies (#[trigger] all[i]).tag <= (
    #[trigger] all[j]).tag by {
        if j < a.len() {
            assert(all[i] == a[i] && all[j] == a[j]);
        } else if i < a.len() {
            assert(all[i] == a[i] && all[j] == b[j - a.len()]);
        } else {
            assert(all[i] == b[i - a.len()] && all[j] == b[j - a.len()]);
        }
    }
}

/// The fields of [`Any`] and their numbers: type_url (1), value (2). A field of
/// another number is passed over. What is written is written in the order of the
/// numbers, and nothing is written of a value that holds nothing.
pub proof fn law_any_fields(
    v: AnyView,
    s: Seq<char>,
    b: Seq<u8>,
    limit: nat,
)
    ensures
        Any::default_view() == (AnyView {
            type_url: Seq::empty(),
            value: Seq::empty(),
        }),
        Any::merge_field(v, text_in(1, s), limit) == Some(
            (AnyView { type_url: s, ..v }),
        ),
        Any::merge_field(v, bytes_in(2, b), limit) == Some(
            (AnyView { value: b, ..v }),
        ),
        forall|field: wire::FieldView|
            field.tag != 1 && field.tag != 2
                ==> #[trigger] Any::merge_field(v, field, limit) == Some(v),
        in_number_order(Any::fields_of(v), 1, 2),
        Any::fields_of(Any::default_view()).len() == 0,
{
    message::lemma_text_round_trip(s);
    let part1 = message::text_field(1, v.type_url);
    let part2 = message::bytes_field(2, v.value);
    lemma_joined(part1, part2, 1, 1, 2, 2);
}

/// The fields of [`Event`] and their numbers: tag (1), event (2). A field of
/// another number is passed over. What is written is written in the order of the
/// numbers, and nothing is written of a value that holds nothing.
pub proof fn law_event_fields(
    v: EventView,
    s: Seq<char>,
    any: AnyView,
    limit: nat,
)
    requires
        message::encoding::<Any>(any).len() <= u64::MAX,
        limit > Any::depth(),
    ensures
        Event::default_view() == (EventView {
            tag: Seq::empty(),
            event: None,
        }),
        Event::merge_field(v, text_in(1, s), limit) == Some(
            (EventView { tag: s, ..v }),
        ),
        v.event is None ==> Event::merge_field(v, message_in::<Any>(2, any), limit)
            == Some((EventView { event: Some(any), ..v })),
        forall|b: Seq<u8>| #[trigger]
            Event::merge_field(v, bytes_in(2, b), limit) == (match message::as_message::<
                Any,
            >(v.event, wire::WireView::Bytes(b), limit) {
                Some(again) => Some(EventView { event: Some(again), ..v }),
                None => None,
            }),
        forall|field: wire::FieldView|
            field.tag != 1 && field.tag != 2
                ==> #[trigger] Event::merge_field(v, field, limit) == Some(v),
        in_number_order(Event::fields_of(v), 1, 2),
        Event::fields_of(Event::default_view()).len() == 0,
{
    message::lemma_text_round_trip(s);
    message::law_decode_encode::<Any>(any, (limit - 1) as nat);
    let part1 = message::text_field(1, v.tag);
    let part2 = message::optional_field::<Any>(2, v.event);
    lemma_joined(part1, part2, 1, 1, 2, 2);
}

/// The fields of [`RawDigest`] and their numbers: sha2_256 (3). A field of another
/// number is passed over. What is written is written in the order of the numbers,
/// and nothing is written of a value that holds nothing.
pub proof fn law_raw_digest_fields(
    v: RawDigestView,
    b: Seq<u8>,
    limit: nat,
)
    ensures
        RawDigest::default_view() == (RawDigestView {
            sha2_256: Seq::empty(),
        }),
        RawDigest::merge_field(v, bytes_in(3, b), limit) == Some(
            (RawDigestView { sha2_256: b }),
        ),
        forall|field: wire::FieldView|
            field.tag != 3 ==> #[trigger] RawDigest::merge_field(v, field, limit) == Some(v),
        in_number_order(RawDigest::fields_of(v), 3, 3),
        RawDigest::fields_of(RawDigest::default_view()).len() == 0,
{
}

/// The fields of [`SystemLayerData`] and their numbers: system_image (1). A field
/// of another number is passed over. What is written is written in the order of the
/// numbers, and nothing is written of a value that holds nothing.
pub proof fn law_system_layer_data_fields(
    v: SystemLayerDataView,
    raw_digest: RawDigestView,
    limit: nat,
)
    requires
        message::encoding::<RawDigest>(raw_digest).len() <= u64::MAX,
        limit > RawDigest::depth(),
    ensures
        SystemLayerData::default_view() == (SystemLayerDataView {
            system_image: None,
        }),
        v.system_image is None
            ==> SystemLayerData::merge_field(v, message_in::<RawDigest>(1, raw_digest), limit)
            == Some((SystemLayerDataView { system_image: Some(raw_digest) })),
        forall|b: Seq<u8>| #[trigger]
            SystemLayerData::merge_field(v, bytes_in(1, b), limit) == (match message::as_message::<
                RawDigest,
            >(v.system_image, wire::WireView::Bytes(b), limit) {
                Some(again) => Some(SystemLayerDataView { system_image: Some(again) }),
                None => None,
            }),
        forall|field: wire::FieldView|
            field.tag != 1 ==> #[trigger] SystemLayerData::merge_field(v, field, limit) == Some(v),
        in_number_order(SystemLayerData::fields_of(v), 1, 1),
        SystemLayerData::fields_of(SystemLayerData::default_view()).len() == 0,
{
    message::law_decode_encode::<RawDigest>(raw_digest, (limit - 1) as nat);

}

/// The fields of [`ContainerLayerData`] and their numbers: bundle (1), config (2),
/// hybrid_encryption_public_key (3), signing_public_key (4),
/// session_binding_public_key (5). A field of another number is passed over. What
/// is written is written in the order of the numbers, and nothing is written of a
/// value that holds nothing.
pub proof fn law_container_layer_data_fields(
    v: ContainerLayerDataView,
    raw_digest: RawDigestView,
    b: Seq<u8>,
    limit: nat,
)
    requires
        message::encoding::<RawDigest>(raw_digest).len() <= u64::MAX,
        limit > RawDigest::depth(),
    ensures
        ContainerLayerData::default_view() == (ContainerLayerDataView {
            bundle: None,
            config: None,
            hybrid_encryption_public_key: Seq::empty(),
            signing_public_key: Seq::empty(),
            session_binding_public_key: Seq::empty(),
        }),
        v.bundle is None
            ==> ContainerLayerData::merge_field(v, message_in::<RawDigest>(1, raw_digest), limit)
            == Some((ContainerLayerDataView { bundle: Some(raw_digest), ..v })),
        forall|b: Seq<u8>| #[trigger]
            ContainerLayerData::merge_field(v, bytes_in(1, b), limit) == (match message::as_message::<
                RawDigest,
            >(v.bundle, wire::WireView::Bytes(b), limit) {
                Some(again) => Some(ContainerLayerDataView { bundle: Some(again), ..v }),
                None => None,
            }),
        v.config is None
            ==> ContainerLayerData::merge_field(v, message_in::<RawDigest>(2, raw_digest), limit)
            == Some((ContainerLayerDataView { config: Some(raw_digest), ..v })),
        forall|b: Seq<u8>| #[trigger]
            ContainerLayerData::merge_field(v, bytes_in(2, b), limit) == (match message::as_message::<
                RawDigest,
            >(v.config, wire::WireView::Bytes(b), limit) {
                Some(again) => Some(ContainerLayerDataView { config: Some(again), ..v }),
                None => None,
            }),
        ContainerLayerData::merge_field(v, bytes_in(3, b), limit) == Some(
            (ContainerLayerDataView { hybrid_encryption_public_key: b, ..v }),
        ),
        ContainerLayerData::merge_field(v, bytes_in(4, b), limit) == Some(
            (ContainerLayerDataView { signing_public_key: b, ..v }),
        ),
        ContainerLayerData::merge_field(v, bytes_in(5, b), limit) == Some(
            (ContainerLayerDataView { session_binding_public_key: b, ..v }),
        ),
        forall|field: wire::FieldView|
            field.tag != 1 && field.tag != 2 && field.tag != 3 && field.tag != 4
                && field.tag != 5
                ==> #[trigger] ContainerLayerData::merge_field(v, field, limit) == Some(v),
        in_number_order(ContainerLayerData::fields_of(v), 1, 5),
        ContainerLayerData::fields_of(ContainerLayerData::default_view()).len() == 0,
{
    message::law_decode_encode::<RawDigest>(raw_digest, (limit - 1) as nat);
    let part1 = message::optional_field::<RawDigest>(1, v.bundle);
    let part2 = message::optional_field::<RawDigest>(2, v.config);
    let part3 = message::bytes_field(3, v.hybrid_encryption_public_key);
    let part4 = message::bytes_field(4, v.signing_public_key);
    let part5 = message::bytes_field(5, v.session_binding_public_key);
    lemma_joined(part1, part2, 1, 1, 2, 2);
    lemma_joined(part1 + part2, part3, 1, 2, 3, 3);
    lemma_joined(part1 + part2 + part3, part4, 1, 3, 4, 4);
    lemma_joined(part1 + part2 + part3 + part4, part5, 1, 4, 5, 5);
}

/// The fields of [`WasmWorkloadLayerData`] and their numbers: bundle (1), config
/// (2), hybrid_encryption_public_key (3), signing_public_key (4),
/// session_binding_public_key (5), capability_claim (6). A field of another number
/// is passed over. What is written is written in the order of the numbers, and
/// nothing is written of a value that holds nothing.
pub proof fn law_wasm_workload_layer_data_fields(
    v: WasmWorkloadLayerDataView,
    raw_digest: RawDigestView,
    b: Seq<u8>,
    limit: nat,
)
    requires
        message::encoding::<RawDigest>(raw_digest).len() <= u64::MAX,
        limit > RawDigest::depth(),
    ensures
        WasmWorkloadLayerData::default_view() == (WasmWorkloadLayerDataView {
            bundle: None,
            config: None,
            hybrid_encryption_public_key: Seq::empty(),
            signing_public_key: Seq::empty(),
            session_binding_public_key: Seq::empty(),
            capability_claim: Seq::empty(),
        }),
        v.bundle is None
            ==> WasmWorkloadLayerData::merge_field(v, message_in::<RawDigest>(1, raw_digest), limit)
            == Some((WasmWorkloadLayerDataView { bundle: Some(raw_digest), ..v })),
        forall|b: Seq<u8>| #[trigger]
            WasmWorkloadLayerData::merge_field(v, bytes_in(1, b), limit) == (match message::as_message::<
                RawDigest,
            >(v.bundle, wire::WireView::Bytes(b), limit) {
                Some(again) => Some(WasmWorkloadLayerDataView { bundle: Some(again), ..v }),
                None => None,
            }),
        v.config is None
            ==> WasmWorkloadLayerData::merge_field(v, message_in::<RawDigest>(2, raw_digest), limit)
            == Some((WasmWorkloadLayerDataView { config: Some(raw_digest), ..v })),
        forall|b: Seq<u8>| #[trigger]
            WasmWorkloadLayerData::merge_field(v, bytes_in(2, b), limit) == (match message::as_message::<
                RawDigest,
            >(v.config, wire::WireView::Bytes(b), limit) {
                Some(again) => Some(WasmWorkloadLayerDataView { config: Some(again), ..v }),
                None => None,
            }),
        WasmWorkloadLayerData::merge_field(v, bytes_in(3, b), limit) == Some(
            (WasmWorkloadLayerDataView { hybrid_encryption_public_key: b, ..v }),
        ),
        WasmWorkloadLayerData::merge_field(v, bytes_in(4, b), limit) == Some(
            (WasmWorkloadLayerDataView { signing_public_key: b, ..v }),
        ),
        WasmWorkloadLayerData::merge_field(v, bytes_in(5, b), limit) == Some(
            (WasmWorkloadLayerDataView { session_binding_public_key: b, ..v }),
        ),
        WasmWorkloadLayerData::merge_field(v, bytes_in(6, b), limit) == Some(
            (WasmWorkloadLayerDataView { capability_claim: b, ..v }),
        ),
        forall|field: wire::FieldView|
            field.tag != 1 && field.tag != 2 && field.tag != 3 && field.tag != 4
                && field.tag != 5 && field.tag != 6
                ==> #[trigger] WasmWorkloadLayerData::merge_field(v, field, limit) == Some(v),
        in_number_order(WasmWorkloadLayerData::fields_of(v), 1, 6),
        WasmWorkloadLayerData::fields_of(WasmWorkloadLayerData::default_view()).len() == 0,
{
    message::law_decode_encode::<RawDigest>(raw_digest, (limit - 1) as nat);
    let part1 = message::optional_field::<RawDigest>(1, v.bundle);
    let part2 = message::optional_field::<RawDigest>(2, v.config);
    let part3 = message::bytes_field(3, v.hybrid_encryption_public_key);
    let part4 = message::bytes_field(4, v.signing_public_key);
    let part5 = message::bytes_field(5, v.session_binding_public_key);
    let part6 = message::bytes_field(6, v.capability_claim);
    lemma_joined(part1, part2, 1, 1, 2, 2);
    lemma_joined(part1 + part2, part3, 1, 2, 3, 3);
    lemma_joined(part1 + part2 + part3, part4, 1, 3, 4, 4);
    lemma_joined(part1 + part2 + part3 + part4, part5, 1, 4, 5, 5);
    lemma_joined(part1 + part2 + part3 + part4 + part5, part6, 1, 5, 6, 6);
}

/// The fields of [`ComponentClaim`] and their numbers: id (1), role (2), digest
/// (3), confidential (4). A field of another number is passed over. What is written
/// is written in the order of the numbers, and nothing is written of a value that
/// holds nothing.
pub proof fn law_component_claim_fields(
    v: ComponentClaimView,
    s: Seq<char>,
    b: Seq<u8>,
    limit: nat,
)
    ensures
        ComponentClaim::default_view() == (ComponentClaimView {
            id: Seq::empty(),
            role: Seq::empty(),
            digest: Seq::empty(),
            confidential: false,
        }),
        ComponentClaim::merge_field(v, text_in(1, s), limit) == Some(
            (ComponentClaimView { id: s, ..v }),
        ),
        ComponentClaim::merge_field(v, text_in(2, s), limit) == Some(
            (ComponentClaimView { role: s, ..v }),
        ),
        ComponentClaim::merge_field(v, bytes_in(3, b), limit) == Some(
            (ComponentClaimView { digest: b, ..v }),
        ),
        ComponentClaim::merge_field(v, number_in(4, 1), limit) == Some(
            (ComponentClaimView { confidential: true, ..v }),
        ),
        ComponentClaim::merge_field(v, number_in(4, 0), limit) == Some(
            (ComponentClaimView { confidential: false, ..v }),
        ),
        forall|field: wire::FieldView|
            field.tag != 1 && field.tag != 2 && field.tag != 3 && field.tag != 4
                ==> #[trigger] ComponentClaim::merge_field(v, field, limit) == Some(v),
        in_number_order(ComponentClaim::fields_of(v), 1, 4),
        ComponentClaim::fields_of(ComponentClaim::default_view()).len() == 0,
{
    message::lemma_text_round_trip(s);
    let part1 = message::text_field(1, v.id);
    let part2 = message::text_field(2, v.role);
    let part3 = message::bytes_field(3, v.digest);
    let part4 = message::bool_field(4, v.confidential);
    lemma_joined(part1, part2, 1, 1, 2, 2);
    lemma_joined(part1 + part2, part3, 1, 2, 3, 3);
    lemma_joined(part1 + part2 + part3, part4, 1, 3, 4, 4);
}

/// The fields of [`Edge`] and their numbers: from (1), to (2), interface (3). A
/// field of another number is passed over. What is written is written in the order
/// of the numbers, and nothing is written of a value that holds nothing.
pub proof fn law_edge_fields(
    v: EdgeView,
    s: Seq<char>,
    limit: nat,
)
    ensures
        Edge::default_view() == (EdgeView {
            from: Seq::empty(),
            to: Seq::empty(),
            interface: Seq::empty(),
        }),
        Edge::merge_field(v, text_in(1, s), limit) == Some(
            (EdgeView { from: s, ..v }),
        ),
        Edge::merge_field(v, text_in(2, s), limit) == Some(
            (EdgeView { to: s, ..v }),
        ),
        Edge::merge_field(v, text_in(3, s), limit) == Some(
            (EdgeView { interface: s, ..v }),
        ),
        forall|field: wire::FieldView|
            field.tag != 1 && field.tag != 2 && field.tag != 3
                ==> #[trigger] Edge::merge_field(v, field, limit) == Some(v),
        in_number_order(Edge::fields_of(v), 1, 3),
        Edge::fields_of(Edge::default_view()).len() == 0,
{
    message::lemma_text_round_trip(s);
    let part1 = message::text_field(1, v.from);
    let part2 = message::text_field(2, v.to);
    let part3 = message::text_field(3, v.interface);
    lemma_joined(part1, part2, 1, 1, 2, 2);
    lemma_joined(part1 + part2, part3, 1, 2, 3, 3);
}

/// The fields of [`CompositionGraph`] and their numbers: nodes (1), edges (2). A
/// field of another number is passed over. What is written is written in the order
/// of the numbers, and nothing is written of a value that holds nothing.
pub proof fn law_composition_graph_fields(
    v: CompositionGraphView,
    s: Seq<char>,
    edge: EdgeView,
    limit: nat,
)
    requires
        message::encoding::<Edge>(edge).len() <= u64::MAX,
        limit > Edge::depth(),
    ensures
        CompositionGraph::default_view() == (CompositionGraphView {
            nodes: Seq::empty(),
            edges: Seq::empty(),
        }),
        CompositionGraph::merge_field(v, text_in(1, s), limit) == Some(
            (CompositionGraphView { nodes: v.nodes.push(s), ..v }),
        ),
        CompositionGraph::merge_field(v, message_in::<Edge>(2, edge), limit) == Some(
            (CompositionGraphView { edges: v.edges.push(edge), ..v }),
        ),
        forall|field: wire::FieldView|
            field.tag != 1 && field.tag != 2
                ==> #[trigger] CompositionGraph::merge_field(v, field, limit) == Some(v),
        in_number_order(CompositionGraph::fields_of(v), 1, 2),
        CompositionGraph::fields_of(CompositionGraph::default_view()).len() == 0,
{
    message::lemma_text_round_trip(s);
    message::law_decode_encode::<Edge>(edge, (limit - 1) as nat);
    let part1 = message::repeated_field(1, message::texts(v.nodes));
    let part2 = message::repeated_field(2, message::encodings::<Edge>(v.edges));
    lemma_joined(part1, part2, 1, 1, 2, 2);
}

/// The fields of [`GrantedWasiCapability`] and their numbers: interface (1),
/// component_id (2), operations (3), resources (4), provenance (5). A field of
/// another number is passed over. What is written is written in the order of the
/// numbers, and nothing is written of a value that holds nothing.
pub proof fn law_granted_wasi_capability_fields(
    v: GrantedWasiCapabilityView,
    s: Seq<char>,
    n: i32,
    limit: nat,
)
    ensures
        GrantedWasiCapability::default_view() == (GrantedWasiCapabilityView {
            interface: Seq::empty(),
            component_id: Seq::empty(),
            operations: Seq::empty(),
            resources: Seq::empty(),
            provenance: 0,
        }),
        GrantedWasiCapability::merge_field(v, text_in(1, s), limit) == Some(
            (GrantedWasiCapabilityView { interface: s, ..v }),
        ),
        GrantedWasiCapability::merge_field(v, text_in(2, s), limit) == Some(
            (GrantedWasiCapabilityView { component_id: s, ..v }),
        ),
        GrantedWasiCapability::merge_field(v, text_in(3, s), limit) == Some(
            (GrantedWasiCapabilityView { operations: v.operations.push(s), ..v }),
        ),
        GrantedWasiCapability::merge_field(v, text_in(4, s), limit) == Some(
            (GrantedWasiCapabilityView { resources: v.resources.push(s), ..v }),
        ),
        GrantedWasiCapability::merge_field(v, number_in(5, n as i64 as u64), limit) == Some(
            (GrantedWasiCapabilityView { provenance: n, ..v }),
        ),
        forall|field: wire::FieldView|
            field.tag != 1 && field.tag != 2 && field.tag != 3 && field.tag != 4
                && field.tag != 5
                ==> #[trigger] GrantedWasiCapability::merge_field(v, field, limit) == Some(v),
        in_number_order(GrantedWasiCapability::fields_of(v), 1, 5),
        GrantedWasiCapability::fields_of(GrantedWasiCapability::default_view()).len() == 0,
{
    message::lemma_text_round_trip(s);
    message::lemma_int32_round_trip(n);
    let part1 = message::text_field(1, v.interface);
    let part2 = message::text_field(2, v.component_id);
    let part3 = message::repeated_field(3, message::texts(v.operations));
    let part4 = message::repeated_field(4, message::texts(v.resources));
    let part5 = message::int32_field(5, v.provenance);
    lemma_joined(part1, part2, 1, 1, 2, 2);
    lemma_joined(part1 + part2, part3, 1, 2, 3, 3);
    lemma_joined(part1 + part2 + part3, part4, 1, 3, 4, 4);
    lemma_joined(part1 + part2 + part3 + part4, part5, 1, 4, 5, 5);
}

/// The fields of [`WasmRuntimeInfo`] and their numbers: engine (1), engine_version
/// (2), wasi_version (3), component_model (4), dynamic_loading (5). A field of
/// another number is passed over. What is written is written in the order of the
/// numbers, and nothing is written of a value that holds nothing.
pub proof fn law_wasm_runtime_info_fields(
    v: WasmRuntimeInfoView,
    s: Seq<char>,
    limit: nat,
)
    ensures
        WasmRuntimeInfo::default_view() == (WasmRuntimeInfoView {
            engine: Seq::empty(),
            engine_version: Seq::empty(),
            wasi_version: Seq::empty(),
            component_model: false,
            dynamic_loading: false,
        }),
        WasmRuntimeInfo::merge_field(v, text_in(1, s), limit) == Some(
            (WasmRuntimeInfoView { engine: s, ..v }),
        ),
        WasmRuntimeInfo::merge_field(v, text_in(2, s), limit) == Some(
            (WasmRuntimeInfoView { engine_version: s, ..v }),
        ),
        WasmRuntimeInfo::merge_field(v, text_in(3, s), limit) == Some(
            (WasmRuntimeInfoView { wasi_version: s, ..v }),
        ),
        WasmRuntimeInfo::merge_field(v, number_in(4, 1), limit) == Some(
            (WasmRuntimeInfoView { component_model: true, ..v }),
        ),
        WasmRuntimeInfo::merge_field(v, number_in(4, 0), limit) == Some(
            (WasmRuntimeInfoView { component_model: false, ..v }),
        ),
        WasmRuntimeInfo::merge_field(v, number_in(5, 1), limit) == Some(
            (WasmRuntimeInfoView { dynamic_loading: true, ..v }),
        ),
        WasmRuntimeInfo::merge_field(v, number_in(5, 0), limit) == Some(
            (WasmRuntimeInfoView { dynamic_loading: false, ..v }),
        ),
        forall|field: wire::FieldView|
            field.tag != 1 && field.tag != 2 && field.tag != 3 && field.tag != 4
                && field.tag != 5
                ==> #[trigger] WasmRuntimeInfo::merge_field(v, field, limit) == Some(v),
        in_number_order(WasmRuntimeInfo::fields_of(v), 1, 5),
        WasmRuntimeInfo::fields_of(WasmRuntimeInfo::default_view()).len() == 0,
{
    message::lemma_text_round_trip(s);
    let part1 = message::text_field(1, v.engine);
    let part2 = message::text_field(2, v.engine_version);
    let part3 = message::text_field(3, v.wasi_version);
    let part4 = message::bool_field(4, v.component_model);
    let part5 = message::bool_field(5, v.dynamic_loading);
    lemma_joined(part1, part2, 1, 1, 2, 2);
    lemma_joined(part1 + part2, part3, 1, 2, 3, 3);
    lemma_joined(part1 + part2 + part3, part4, 1, 3, 4, 4);
    lemma_joined(part1 + part2 + part3 + part4, part5, 1, 4, 5, 5);
}

/// The fields of [`RuntimeProperties`] and their numbers: network (1),
/// persistent_storage (2), wall_clock (3), randomness (4), environment (5), spawn
/// (6). A field of another number is passed over. What is written is written in the
/// order of the numbers, and nothing is written of a value that holds nothing.
pub proof fn law_runtime_properties_fields(
    v: RuntimePropertiesView,
    n: i32,
    limit: nat,
)
    ensures
        RuntimeProperties::default_view() == (RuntimePropertiesView {
            network: 0,
            persistent_storage: 0,
            wall_clock: 0,
            randomness: 0,
            environment: 0,
            spawn: 0,
        }),
        RuntimeProperties::merge_field(v, number_in(1, n as i64 as u64), limit) == Some(
            (RuntimePropertiesView { network: n, ..v }),
        ),
        RuntimeProperties::merge_field(v, number_in(2, n as i64 as u64), limit) == Some(
            (RuntimePropertiesView { persistent_storage: n, ..v }),
        ),
        RuntimeProperties::merge_field(v, number_in(3, n as i64 as u64), limit) == Some(
            (RuntimePropertiesView { wall_clock: n, ..v }),
        ),
        RuntimeProperties::merge_field(v, number_in(4, n as i64 as u64), limit) == Some(
            (RuntimePropertiesView { randomness: n, ..v }),
        ),
        RuntimeProperties::merge_field(v, number_in(5, n as i64 as u64), limit) == Some(
            (RuntimePropertiesView { environment: n, ..v }),
        ),
        RuntimeProperties::merge_field(v, number_in(6, n as i64 as u64), limit) == Some(
            (RuntimePropertiesView { spawn: n, ..v }),
        ),
        forall|field: wire::FieldView|
            field.tag != 1 && field.tag != 2 && field.tag != 3 && field.tag != 4
                && field.tag != 5 && field.tag != 6
                ==> #[trigger] RuntimeProperties::merge_field(v, field, limit) == Some(v),
        in_number_order(RuntimeProperties::fields_of(v), 1, 6),
        RuntimeProperties::fields_of(RuntimeProperties::default_view()).len() == 0,
{
    message::lemma_int32_round_trip(n);
    let part1 = message::int32_field(1, v.network);
    let part2 = message::int32_field(2, v.persistent_storage);
    let part3 = message::int32_field(3, v.wall_clock);
    let part4 = message::int32_field(4, v.randomness);
    let part5 = message::int32_field(5, v.environment);
    let part6 = message::int32_field(6, v.spawn);
    lemma_joined(part1, part2, 1, 1, 2, 2);
    lemma_joined(part1 + part2, part3, 1, 2, 3, 3);
    lemma_joined(part1 + part2 + part3, part4, 1, 3, 4, 4);
    lemma_joined(part1 + part2 + part3 + part4, part5, 1, 4, 5, 5);
    lemma_joined(part1 + part2 + part3 + part4 + part5, part6, 1, 5, 6, 6);
}

/// The fields of [`Preopen`] and their numbers: guest_path (1), dir_perms (2),
/// file_perms (3). A field of another number is passed over. What is written is
/// written in the order of the numbers, and nothing is written of a value that
/// holds nothing.
pub proof fn law_preopen_fields(
    v: PreopenView,
    s: Seq<char>,
    w: u32,
    limit: nat,
)
    ensures
        Preopen::default_view() == (PreopenView {
            guest_path: Seq::empty(),
            dir_perms: 0,
            file_perms: 0,
        }),
        Preopen::merge_field(v, text_in(1, s), limit) == Some(
            (PreopenView { guest_path: s, ..v }),
        ),
        Preopen::merge_field(v, number_in(2, w as u64), limit) == Some(
            (PreopenView { dir_perms: w, ..v }),
        ),
        Preopen::merge_field(v, number_in(3, w as u64), limit) == Some(
            (PreopenView { file_perms: w, ..v }),
        ),
        forall|field: wire::FieldView|
            field.tag != 1 && field.tag != 2 && field.tag != 3
                ==> #[trigger] Preopen::merge_field(v, field, limit) == Some(v),
        in_number_order(Preopen::fields_of(v), 1, 3),
        Preopen::fields_of(Preopen::default_view()).len() == 0,
{
    message::lemma_text_round_trip(s);
    message::lemma_uint32_round_trip(w);
    let part1 = message::text_field(1, v.guest_path);
    let part2 = message::uint32_field(2, v.dir_perms);
    let part3 = message::uint32_field(3, v.file_perms);
    lemma_joined(part1, part2, 1, 1, 2, 2);
    lemma_joined(part1 + part2, part3, 1, 2, 3, 3);
}

/// The fields of [`WasiRuntimeGrant`] and their numbers: preopens (1), network (2),
/// env_names (3), args (4), stdin (5), stdout (6), stderr (7), wall_clock (8),
/// monotonic_clock (9), random (10). A field of another number is passed over. What
/// is written is written in the order of the numbers, and nothing is written of a
/// value that holds nothing.
pub proof fn law_wasi_runtime_grant_fields(
    v: WasiRuntimeGrantView,
    preopen: PreopenView,
    s: Seq<char>,
    n: i32,
    limit: nat,
)
    requires
        message::encoding::<Preopen>(preopen).len() <= u64::MAX,
        limit > Preopen::depth(),
    ensures
        WasiRuntimeGrant::default_view() == (WasiRuntimeGrantView {
            preopens: Seq::empty(),
            network: false,
            env_names: Seq::empty(),
            args: Seq::empty(),
            stdin: 0,
            stdout: 0,
            stderr: 0,
            wall_clock: false,
            monotonic_clock: false,
            random: 0,
        }),
        WasiRuntimeGrant::merge_field(v, message_in::<Preopen>(1, preopen), limit) == Some(
            (WasiRuntimeGrantView { preopens: v.preopens.push(preopen), ..v }),
        ),
        WasiRuntimeGrant::merge_field(v, number_in(2, 1), limit) == Some(
            (WasiRuntimeGrantView { network: true, ..v }),
        ),
        WasiRuntimeGrant::merge_field(v, number_in(2, 0), limit) == Some(
            (WasiRuntimeGrantView { network: false, ..v }),
        ),
        WasiRuntimeGrant::merge_field(v, text_in(3, s), limit) == Some(
            (WasiRuntimeGrantView { env_names: v.env_names.push(s), ..v }),
        ),
        WasiRuntimeGrant::merge_field(v, text_in(4, s), limit) == Some(
            (WasiRuntimeGrantView { args: v.args.push(s), ..v }),
        ),
        WasiRuntimeGrant::merge_field(v, number_in(5, n as i64 as u64), limit) == Some(
            (WasiRuntimeGrantView { stdin: n, ..v }),
        ),
        WasiRuntimeGrant::merge_field(v, number_in(6, n as i64 as u64), limit) == Some(
            (WasiRuntimeGrantView { stdout: n, ..v }),
        ),
        WasiRuntimeGrant::merge_field(v, number_in(7, n as i64 as u64), limit) == Some(
            (WasiRuntimeGrantView { stderr: n, ..v }),
        ),
        WasiRuntimeGrant::merge_field(v, number_in(8, 1), limit) == Some(
            (WasiRuntimeGrantView { wall_clock: true, ..v }),
        ),
        WasiRuntimeGrant::merge_field(v, number_in(8, 0), limit) == Some(
            (WasiRuntimeGrantView { wall_clock: false, ..v }),
        ),
        WasiRuntimeGrant::merge_field(v, number_in(9, 1), limit) == Some(
            (WasiRuntimeGrantView { monotonic_clock: true, ..v }),
        ),
        WasiRuntimeGrant::merge_field(v, number_in(9, 0), limit) == Some(
            (WasiRuntimeGrantView { monotonic_clock: false, ..v }),
        ),
        WasiRuntimeGrant::merge_field(v, number_in(10, n as i64 as u64), limit) == Some(
            (WasiRuntimeGrantView { random: n, ..v }),
        ),
        forall|field: wire::FieldView|
            field.tag != 1 && field.tag != 2 && field.tag != 3 && field.tag != 4
                && field.tag != 5 && field.tag != 6 && field.tag != 7 && field.tag != 8
                && field.tag != 9 && field.tag != 10
                ==> #[trigger] WasiRuntimeGrant::merge_field(v, field, limit) == Some(v),
        in_number_order(WasiRuntimeGrant::fields_of(v), 1, 10),
        WasiRuntimeGrant::fields_of(WasiRuntimeGrant::default_view()).len() == 0,
{
    message::law_decode_encode::<Preopen>(preopen, (limit - 1) as nat);
    message::lemma_text_round_trip(s);
    message::lemma_int32_round_trip(n);
    let part1 = message::repeated_field(1, message::encodings::<Preopen>(v.preopens));
    let part2 = message::bool_field(2, v.network);
    let part3 = message::repeated_field(3, message::texts(v.env_names));
    let part4 = message::repeated_field(4, message::texts(v.args));
    let part5 = message::int32_field(5, v.stdin);
    let part6 = message::int32_field(6, v.stdout);
    let part7 = message::int32_field(7, v.stderr);
    let part8 = message::bool_field(8, v.wall_clock);
    let part9 = message::bool_field(9, v.monotonic_clock);
    let part10 = message::int32_field(10, v.random);
    lemma_joined(part1, part2, 1, 1, 2, 2);
    lemma_joined(part1 + part2, part3, 1, 2, 3, 3);
    lemma_joined(part1 + part2 + part3, part4, 1, 3, 4, 4);
    lemma_joined(part1 + part2 + part3 + part4, part5, 1, 4, 5, 5);
    lemma_joined(part1 + part2 + part3 + part4 + part5, part6, 1, 5, 6, 6);
    lemma_joined(part1 + part2 + part3 + part4 + part5 + part6, part7, 1, 6, 7, 7);
    lemma_joined(part1 + part2 + part3 + part4 + part5 + part6 + part7, part8, 1, 7, 8, 8);
    lemma_joined(part1 + part2 + part3 + part4 + part5 + part6 + part7 + part8, part9, 1, 8, 9, 9);
    lemma_joined(part1 + part2 + part3 + part4 + part5 + part6 + part7 + part8 + part9, part10, 1, 9, 10, 10);
}

/// The fields of [`WasmCapabilityClaim`] and their numbers: schema_version (1),
/// application_commitment (2), runtime_info (3), graph (4), components (5),
/// granted_capabilities (6), runtime_properties (7), wasi_runtime_grant (8). A
/// field of another number is passed over. What is written is written in the order
/// of the numbers, and nothing is written of a value that holds nothing.
pub proof fn law_wasm_capability_claim_fields(
    v: WasmCapabilityClaimView,
    s: Seq<char>,
    b: Seq<u8>,
    wasm_runtime_info: WasmRuntimeInfoView,
    composition_graph: CompositionGraphView,
    component_claim: ComponentClaimView,
    granted_wasi_capability: GrantedWasiCapabilityView,
    runtime_properties: RuntimePropertiesView,
    wasi_runtime_grant: WasiRuntimeGrantView,
    limit: nat,
)
    requires
        message::encoding::<WasmRuntimeInfo>(wasm_runtime_info).len() <= u64::MAX,
        limit > WasmRuntimeInfo::depth(),
        message::encoding::<CompositionGraph>(composition_graph).len() <= u64::MAX,
        limit > CompositionGraph::depth(),
        message::encoding::<ComponentClaim>(component_claim).len() <= u64::MAX,
        limit > ComponentClaim::depth(),
        message::encoding::<GrantedWasiCapability>(granted_wasi_capability).len() <= u64::MAX,
        limit > GrantedWasiCapability::depth(),
        message::encoding::<RuntimeProperties>(runtime_properties).len() <= u64::MAX,
        limit > RuntimeProperties::depth(),
        message::encoding::<WasiRuntimeGrant>(wasi_runtime_grant).len() <= u64::MAX,
        limit > WasiRuntimeGrant::depth(),
    ensures
        WasmCapabilityClaim::default_view() == (WasmCapabilityClaimView {
            schema_version: Seq::empty(),
            application_commitment: Seq::empty(),
            runtime_info: None,
            graph: None,
            components: Seq::empty(),
            granted_capabilities: Seq::empty(),
            runtime_properties: None,
            wasi_runtime_grant: None,
        }),
        WasmCapabilityClaim::merge_field(v, text_in(1, s), limit) == Some(
            (WasmCapabilityClaimView { schema_version: s, ..v }),
        ),
        WasmCapabilityClaim::merge_field(v, bytes_in(2, b), limit) == Some(
            (WasmCapabilityClaimView { application_commitment: b, ..v }),
        ),
        v.runtime_info is None
            ==> WasmCapabilityClaim::merge_field(v, message_in::<WasmRuntimeInfo>(3, wasm_runtime_info), limit)
            == Some((WasmCapabilityClaimView { runtime_info: Some(wasm_runtime_info), ..v })),
        forall|b: Seq<u8>| #[trigger]
            WasmCapabilityClaim::merge_field(v, bytes_in(3, b), limit) == (match message::as_message::<
                WasmRuntimeInfo,
            >(v.runtime_info, wire::WireView::Bytes(b), limit) {
                Some(again) => Some(WasmCapabilityClaimView { runtime_info: Some(again), ..v }),
                None => None,
            }),
        v.graph is None
            ==> WasmCapabilityClaim::merge_field(v, message_in::<CompositionGraph>(4, composition_graph), limit)
            == Some((WasmCapabilityClaimView { graph: Some(composition_graph), ..v })),
        forall|b: Seq<u8>| #[trigger]
            WasmCapabilityClaim::merge_field(v, bytes_in(4, b), limit) == (match message::as_message::<
                CompositionGraph,
            >(v.graph, wire::WireView::Bytes(b), limit) {
                Some(again) => Some(WasmCapabilityClaimView { graph: Some(again), ..v }),
                None => None,
            }),
        WasmCapabilityClaim::merge_field(v, message_in::<ComponentClaim>(5, component_claim), limit) == Some(
            (WasmCapabilityClaimView { components: v.components.push(component_claim), ..v }),
        ),
        WasmCapabilityClaim::merge_field(v, message_in::<GrantedWasiCapability>(6, granted_wasi_capability), limit) == Some(
            (WasmCapabilityClaimView { granted_capabilities: v.granted_capabilities.push(granted_wasi_capability), ..v }),
        ),
        v.runtime_properties is None
            ==> WasmCapabilityClaim::merge_field(v, message_in::<RuntimeProperties>(7, runtime_properties), limit)
            == Some((WasmCapabilityClaimView { runtime_properties: Some(runtime_properties), ..v })),
        forall|b: Seq<u8>| #[trigger]
            WasmCapabilityClaim::merge_field(v, bytes_in(7, b), limit) == (match message::as_message::<
                RuntimeProperties,
            >(v.runtime_properties, wire::WireView::Bytes(b), limit) {
                Some(again) => Some(WasmCapabilityClaimView { runtime_properties: Some(again), ..v }),
                None => None,
            }),
        v.wasi_runtime_grant is None
            ==> WasmCapabilityClaim::merge_field(v, message_in::<WasiRuntimeGrant>(8, wasi_runtime_grant), limit)
            == Some((WasmCapabilityClaimView { wasi_runtime_grant: Some(wasi_runtime_grant), ..v })),
        forall|b: Seq<u8>| #[trigger]
            WasmCapabilityClaim::merge_field(v, bytes_in(8, b), limit) == (match message::as_message::<
                WasiRuntimeGrant,
            >(v.wasi_runtime_grant, wire::WireView::Bytes(b), limit) {
                Some(again) => Some(WasmCapabilityClaimView { wasi_runtime_grant: Some(again), ..v }),
                None => None,
            }),
        forall|field: wire::FieldView|
            field.tag != 1 && field.tag != 2 && field.tag != 3 && field.tag != 4
                && field.tag != 5 && field.tag != 6 && field.tag != 7 && field.tag != 8
                ==> #[trigger] WasmCapabilityClaim::merge_field(v, field, limit) == Some(v),
        in_number_order(WasmCapabilityClaim::fields_of(v), 1, 8),
        WasmCapabilityClaim::fields_of(WasmCapabilityClaim::default_view()).len() == 0,
{
    message::lemma_text_round_trip(s);
    message::law_decode_encode::<WasmRuntimeInfo>(wasm_runtime_info, (limit - 1) as nat);
    message::law_decode_encode::<CompositionGraph>(composition_graph, (limit - 1) as nat);
    message::law_decode_encode::<ComponentClaim>(component_claim, (limit - 1) as nat);
    message::law_decode_encode::<GrantedWasiCapability>(granted_wasi_capability, (limit - 1) as nat);
    message::law_decode_encode::<RuntimeProperties>(runtime_properties, (limit - 1) as nat);
    message::law_decode_encode::<WasiRuntimeGrant>(wasi_runtime_grant, (limit - 1) as nat);
    let part1 = message::text_field(1, v.schema_version);
    let part2 = message::bytes_field(2, v.application_commitment);
    let part3 = message::optional_field::<WasmRuntimeInfo>(3, v.runtime_info);
    let part4 = message::optional_field::<CompositionGraph>(4, v.graph);
    let part5 = message::repeated_field(5, message::encodings::<ComponentClaim>(v.components));
    let part6 = message::repeated_field(6, message::encodings::<GrantedWasiCapability>(v.granted_capabilities));
    let part7 = message::optional_field::<RuntimeProperties>(7, v.runtime_properties);
    let part8 = message::optional_field::<WasiRuntimeGrant>(8, v.wasi_runtime_grant);
    lemma_joined(part1, part2, 1, 1, 2, 2);
    lemma_joined(part1 + part2, part3, 1, 2, 3, 3);
    lemma_joined(part1 + part2 + part3, part4, 1, 3, 4, 4);
    lemma_joined(part1 + part2 + part3 + part4, part5, 1, 4, 5, 5);
    lemma_joined(part1 + part2 + part3 + part4 + part5, part6, 1, 5, 6, 6);
    lemma_joined(part1 + part2 + part3 + part4 + part5 + part6, part7, 1, 6, 7, 7);
    lemma_joined(part1 + part2 + part3 + part4 + part5 + part6 + part7, part8, 1, 7, 8, 8);
}

/// The fields of [`WasmComponentRef`] and their numbers: id (1), role (2), path
/// (3). A field of another number is passed over. What is written is written in the
/// order of the numbers, and nothing is written of a value that holds nothing.
pub proof fn law_wasm_component_ref_fields(
    v: WasmComponentRefView,
    s: Seq<char>,
    limit: nat,
)
    ensures
        WasmComponentRef::default_view() == (WasmComponentRefView {
            id: Seq::empty(),
            role: Seq::empty(),
            path: Seq::empty(),
        }),
        WasmComponentRef::merge_field(v, text_in(1, s), limit) == Some(
            (WasmComponentRefView { id: s, ..v }),
        ),
        WasmComponentRef::merge_field(v, text_in(2, s), limit) == Some(
            (WasmComponentRefView { role: s, ..v }),
        ),
        WasmComponentRef::merge_field(v, text_in(3, s), limit) == Some(
            (WasmComponentRefView { path: s, ..v }),
        ),
        forall|field: wire::FieldView|
            field.tag != 1 && field.tag != 2 && field.tag != 3
                ==> #[trigger] WasmComponentRef::merge_field(v, field, limit) == Some(v),
        in_number_order(WasmComponentRef::fields_of(v), 1, 3),
        WasmComponentRef::fields_of(WasmComponentRef::default_view()).len() == 0,
{
    message::lemma_text_round_trip(s);
    let part1 = message::text_field(1, v.id);
    let part2 = message::text_field(2, v.role);
    let part3 = message::text_field(3, v.path);
    lemma_joined(part1, part2, 1, 1, 2, 2);
    lemma_joined(part1 + part2, part3, 1, 2, 3, 3);
}

/// The fields of [`WasmCompositionEdge`] and their numbers: from (1), to (2),
/// interface (3). A field of another number is passed over. What is written is
/// written in the order of the numbers, and nothing is written of a value that
/// holds nothing.
pub proof fn law_wasm_composition_edge_fields(
    v: WasmCompositionEdgeView,
    s: Seq<char>,
    limit: nat,
)
    ensures
        WasmCompositionEdge::default_view() == (WasmCompositionEdgeView {
            from: Seq::empty(),
            to: Seq::empty(),
            interface: Seq::empty(),
        }),
        WasmCompositionEdge::merge_field(v, text_in(1, s), limit) == Some(
            (WasmCompositionEdgeView { from: s, ..v }),
        ),
        WasmCompositionEdge::merge_field(v, text_in(2, s), limit) == Some(
            (WasmCompositionEdgeView { to: s, ..v }),
        ),
        WasmCompositionEdge::merge_field(v, text_in(3, s), limit) == Some(
            (WasmCompositionEdgeView { interface: s, ..v }),
        ),
        forall|field: wire::FieldView|
            field.tag != 1 && field.tag != 2 && field.tag != 3
                ==> #[trigger] WasmCompositionEdge::merge_field(v, field, limit) == Some(v),
        in_number_order(WasmCompositionEdge::fields_of(v), 1, 3),
        WasmCompositionEdge::fields_of(WasmCompositionEdge::default_view()).len() == 0,
{
    message::lemma_text_round_trip(s);
    let part1 = message::text_field(1, v.from);
    let part2 = message::text_field(2, v.to);
    let part3 = message::text_field(3, v.interface);
    lemma_joined(part1, part2, 1, 1, 2, 2);
    lemma_joined(part1 + part2, part3, 1, 2, 3, 3);
}

/// The fields of [`WasmWorkloadConfig`] and their numbers: components (1), edges
/// (2), entry_component (3), entry_interface (4), entry_function (5). A field of
/// another number is passed over. What is written is written in the order of the
/// numbers, and nothing is written of a value that holds nothing.
pub proof fn law_wasm_workload_config_fields(
    v: WasmWorkloadConfigView,
    wasm_component_ref: WasmComponentRefView,
    wasm_composition_edge: WasmCompositionEdgeView,
    s: Seq<char>,
    limit: nat,
)
    requires
        message::encoding::<WasmComponentRef>(wasm_component_ref).len() <= u64::MAX,
        limit > WasmComponentRef::depth(),
        message::encoding::<WasmCompositionEdge>(wasm_composition_edge).len() <= u64::MAX,
        limit > WasmCompositionEdge::depth(),
    ensures
        WasmWorkloadConfig::default_view() == (WasmWorkloadConfigView {
            components: Seq::empty(),
            edges: Seq::empty(),
            entry_component: Seq::empty(),
            entry_interface: Seq::empty(),
            entry_function: Seq::empty(),
        }),
        WasmWorkloadConfig::merge_field(v, message_in::<WasmComponentRef>(1, wasm_component_ref), limit) == Some(
            (WasmWorkloadConfigView { components: v.components.push(wasm_component_ref), ..v }),
        ),
        WasmWorkloadConfig::merge_field(v, message_in::<WasmCompositionEdge>(2, wasm_composition_edge), limit) == Some(
            (WasmWorkloadConfigView { edges: v.edges.push(wasm_composition_edge), ..v }),
        ),
        WasmWorkloadConfig::merge_field(v, text_in(3, s), limit) == Some(
            (WasmWorkloadConfigView { entry_component: s, ..v }),
        ),
        WasmWorkloadConfig::merge_field(v, text_in(4, s), limit) == Some(
            (WasmWorkloadConfigView { entry_interface: s, ..v }),
        ),
        WasmWorkloadConfig::merge_field(v, text_in(5, s), limit) == Some(
            (WasmWorkloadConfigView { entry_function: s, ..v }),
        ),
        forall|field: wire::FieldView|
            field.tag != 1 && field.tag != 2 && field.tag != 3 && field.tag != 4
                && field.tag != 5
                ==> #[trigger] WasmWorkloadConfig::merge_field(v, field, limit) == Some(v),
        in_number_order(WasmWorkloadConfig::fields_of(v), 1, 5),
        WasmWorkloadConfig::fields_of(WasmWorkloadConfig::default_view()).len() == 0,
{
    message::law_decode_encode::<WasmComponentRef>(wasm_component_ref, (limit - 1) as nat);
    message::law_decode_encode::<WasmCompositionEdge>(wasm_composition_edge, (limit - 1) as nat);
    message::lemma_text_round_trip(s);
    let part1 = message::repeated_field(1, message::encodings::<WasmComponentRef>(v.components));
    let part2 = message::repeated_field(2, message::encodings::<WasmCompositionEdge>(v.edges));
    let part3 = message::text_field(3, v.entry_component);
    let part4 = message::text_field(4, v.entry_interface);
    let part5 = message::text_field(5, v.entry_function);
    lemma_joined(part1, part2, 1, 1, 2, 2);
    lemma_joined(part1 + part2, part3, 1, 2, 3, 3);
    lemma_joined(part1 + part2 + part3, part4, 1, 3, 4, 4);
    lemma_joined(part1 + part2 + part3 + part4, part5, 1, 4, 5, 5);
}

/// The fields of [`OrchestratorWorkloadConfig`] and their numbers: workload_kind
/// (1), wasm (2). A field of another number is passed over. What is written is
/// written in the order of the numbers, and nothing is written of a value that
/// holds nothing.
pub proof fn law_orchestrator_workload_config_fields(
    v: OrchestratorWorkloadConfigView,
    n: i32,
    wasm_workload_config: WasmWorkloadConfigView,
    limit: nat,
)
    requires
        message::encoding::<WasmWorkloadConfig>(wasm_workload_config).len() <= u64::MAX,
        limit > WasmWorkloadConfig::depth(),
    ensures
        OrchestratorWorkloadConfig::default_view() == (OrchestratorWorkloadConfigView {
            workload_kind: 0,
            wasm: None,
        }),
        OrchestratorWorkloadConfig::merge_field(v, number_in(1, n as i64 as u64), limit) == Some(
            (OrchestratorWorkloadConfigView { workload_kind: n, ..v }),
        ),
        v.wasm is None
            ==> OrchestratorWorkloadConfig::merge_field(v, message_in::<WasmWorkloadConfig>(2, wasm_workload_config), limit)
            == Some((OrchestratorWorkloadConfigView { wasm: Some(wasm_workload_config), ..v })),
        forall|b: Seq<u8>| #[trigger]
            OrchestratorWorkloadConfig::merge_field(v, bytes_in(2, b), limit) == (match message::as_message::<
                WasmWorkloadConfig,
            >(v.wasm, wire::WireView::Bytes(b), limit) {
                Some(again) => Some(OrchestratorWorkloadConfigView { wasm: Some(again), ..v }),
                None => None,
            }),
        forall|field: wire::FieldView|
            field.tag != 1 && field.tag != 2
                ==> #[trigger] OrchestratorWorkloadConfig::merge_field(v, field, limit) == Some(v),
        in_number_order(OrchestratorWorkloadConfig::fields_of(v), 1, 2),
        OrchestratorWorkloadConfig::fields_of(OrchestratorWorkloadConfig::default_view()).len() == 0,
{
    message::lemma_int32_round_trip(n);
    message::law_decode_encode::<WasmWorkloadConfig>(wasm_workload_config, (limit - 1) as nat);
    let part1 = message::int32_field(1, v.workload_kind);
    let part2 = message::optional_field::<WasmWorkloadConfig>(2, v.wasm);
    lemma_joined(part1, part2, 1, 1, 2, 2);
}

/// The fields of [`ProtectedResponse`] and their numbers: decryption_keys (1),
/// result_encryption_keys (2). A field of another number is passed over. What is
/// written is written in the order of the numbers, and nothing is written of a
/// value that holds nothing.
pub proof fn law_protected_response_fields(
    v: ProtectedResponseView,
    b: Seq<u8>,
    limit: nat,
)
    ensures
        ProtectedResponse::default_view() == (ProtectedResponseView {
            decryption_keys: Seq::empty(),
            result_encryption_keys: Seq::empty(),
        }),
        ProtectedResponse::merge_field(v, bytes_in(1, b), limit) == Some(
            (ProtectedResponseView { decryption_keys: v.decryption_keys.push(b), ..v }),
        ),
        ProtectedResponse::merge_field(v, bytes_in(2, b), limit) == Some(
            (ProtectedResponseView { result_encryption_keys: v.result_encryption_keys.push(b), ..v }),
        ),
        forall|field: wire::FieldView|
            field.tag != 1 && field.tag != 2
                ==> #[trigger] ProtectedResponse::merge_field(v, field, limit) == Some(v),
        in_number_order(ProtectedResponse::fields_of(v), 1, 2),
        ProtectedResponse::fields_of(ProtectedResponse::default_view()).len() == 0,
{
    let part1 = message::repeated_field(1, v.decryption_keys);
    let part2 = message::repeated_field(2, v.result_encryption_keys);
    lemma_joined(part1, part2, 1, 1, 2, 2);
}

// ---------------------------------------------------------------------------
// Views and numbers
// ---------------------------------------------------------------------------

/// Every field of a [`Any`] is in its view, as it is.
pub proof fn law_any_view(m: Any)
    ensures
        m@.type_url == m.type_url@,
        m@.value == m.value@,
{
}

/// Every field of a [`Event`] is in its view, as it is.
pub proof fn law_event_view(m: Event)
    ensures
        m@.tag == m.tag@,
        m@.event is Some <==> m.event is Some,
        m.event matches Some(held) ==> m@.event == Some(held@),
{
}

/// Every field of a [`RawDigest`] is in its view, as it is.
pub proof fn law_raw_digest_view(m: RawDigest)
    ensures
        m@.sha2_256 == m.sha2_256@,
{
}

/// Every field of a [`SystemLayerData`] is in its view, as it is.
pub proof fn law_system_layer_data_view(m: SystemLayerData)
    ensures
        m@.system_image is Some <==> m.system_image is Some,
        m.system_image matches Some(held) ==> m@.system_image == Some(held@),
{
}

/// Every field of a [`ContainerLayerData`] is in its view, as it is.
pub proof fn law_container_layer_data_view(m: ContainerLayerData)
    ensures
        m@.bundle is Some <==> m.bundle is Some,
        m.bundle matches Some(held) ==> m@.bundle == Some(held@),
        m@.config is Some <==> m.config is Some,
        m.config matches Some(held) ==> m@.config == Some(held@),
        m@.hybrid_encryption_public_key == m.hybrid_encryption_public_key@,
        m@.signing_public_key == m.signing_public_key@,
        m@.session_binding_public_key == m.session_binding_public_key@,
{
}

/// Every field of a [`WasmWorkloadLayerData`] is in its view, as it is.
pub proof fn law_wasm_workload_layer_data_view(m: WasmWorkloadLayerData)
    ensures
        m@.bundle is Some <==> m.bundle is Some,
        m.bundle matches Some(held) ==> m@.bundle == Some(held@),
        m@.config is Some <==> m.config is Some,
        m.config matches Some(held) ==> m@.config == Some(held@),
        m@.hybrid_encryption_public_key == m.hybrid_encryption_public_key@,
        m@.signing_public_key == m.signing_public_key@,
        m@.session_binding_public_key == m.session_binding_public_key@,
        m@.capability_claim == m.capability_claim@,
{
}

/// Every field of a [`ComponentClaim`] is in its view, as it is.
pub proof fn law_component_claim_view(m: ComponentClaim)
    ensures
        m@.id == m.id@,
        m@.role == m.role@,
        m@.digest == m.digest@,
        m@.confidential == m.confidential,
{
}

/// Every field of a [`Edge`] is in its view, as it is.
pub proof fn law_edge_view(m: Edge)
    ensures
        m@.from == m.from@,
        m@.to == m.to@,
        m@.interface == m.interface@,
{
}

/// Every field of a [`CompositionGraph`] is in its view, as it is.
pub proof fn law_composition_graph_view(m: CompositionGraph)
    ensures
        m@.nodes.len() == m.nodes@.len(),
        forall|i: int| 0 <= i < m.nodes@.len() ==> (#[trigger] m@.nodes[i]) == m.nodes@[i]@,
        m@.edges.len() == m.edges@.len(),
        forall|i: int| 0 <= i < m.edges@.len() ==> (#[trigger] m@.edges[i]) == m.edges@[i]@,
{
}

/// Every field of a [`GrantedWasiCapability`] is in its view, as it is.
pub proof fn law_granted_wasi_capability_view(m: GrantedWasiCapability)
    ensures
        m@.interface == m.interface@,
        m@.component_id == m.component_id@,
        m@.operations.len() == m.operations@.len(),
        forall|i: int|
            0 <= i < m.operations@.len() ==> (#[trigger] m@.operations[i]) == m.operations@[i]@,
        m@.resources.len() == m.resources@.len(),
        forall|i: int|
            0 <= i < m.resources@.len() ==> (#[trigger] m@.resources[i]) == m.resources@[i]@,
        m@.provenance == m.provenance,
{
}

/// Every field of a [`WasmRuntimeInfo`] is in its view, as it is.
pub proof fn law_wasm_runtime_info_view(m: WasmRuntimeInfo)
    ensures
        m@.engine == m.engine@,
        m@.engine_version == m.engine_version@,
        m@.wasi_version == m.wasi_version@,
        m@.component_model == m.component_model,
        m@.dynamic_loading == m.dynamic_loading,
{
}

/// Every field of a [`RuntimeProperties`] is in its view, as it is.
pub proof fn law_runtime_properties_view(m: RuntimeProperties)
    ensures
        m@.network == m.network,
        m@.persistent_storage == m.persistent_storage,
        m@.wall_clock == m.wall_clock,
        m@.randomness == m.randomness,
        m@.environment == m.environment,
        m@.spawn == m.spawn,
{
}

/// Every field of a [`Preopen`] is in its view, as it is.
pub proof fn law_preopen_view(m: Preopen)
    ensures
        m@.guest_path == m.guest_path@,
        m@.dir_perms == m.dir_perms,
        m@.file_perms == m.file_perms,
{
}

/// Every field of a [`WasiRuntimeGrant`] is in its view, as it is.
pub proof fn law_wasi_runtime_grant_view(m: WasiRuntimeGrant)
    ensures
        m@.preopens.len() == m.preopens@.len(),
        forall|i: int|
            0 <= i < m.preopens@.len() ==> (#[trigger] m@.preopens[i]) == m.preopens@[i]@,
        m@.network == m.network,
        m@.env_names.len() == m.env_names@.len(),
        forall|i: int|
            0 <= i < m.env_names@.len() ==> (#[trigger] m@.env_names[i]) == m.env_names@[i]@,
        m@.args.len() == m.args@.len(),
        forall|i: int| 0 <= i < m.args@.len() ==> (#[trigger] m@.args[i]) == m.args@[i]@,
        m@.stdin == m.stdin,
        m@.stdout == m.stdout,
        m@.stderr == m.stderr,
        m@.wall_clock == m.wall_clock,
        m@.monotonic_clock == m.monotonic_clock,
        m@.random == m.random,
{
}

/// Every field of a [`WasmCapabilityClaim`] is in its view, as it is.
pub proof fn law_wasm_capability_claim_view(m: WasmCapabilityClaim)
    ensures
        m@.schema_version == m.schema_version@,
        m@.application_commitment == m.application_commitment@,
        m@.runtime_info is Some <==> m.runtime_info is Some,
        m.runtime_info matches Some(held) ==> m@.runtime_info == Some(held@),
        m@.graph is Some <==> m.graph is Some,
        m.graph matches Some(held) ==> m@.graph == Some(held@),
        m@.components.len() == m.components@.len(),
        forall|i: int|
            0 <= i < m.components@.len() ==> (#[trigger] m@.components[i]) == m.components@[i]@,
        m@.granted_capabilities.len() == m.granted_capabilities@.len(),
        forall|i: int|
            0 <= i < m.granted_capabilities@.len() ==> (#[trigger] m@.granted_capabilities[i]) == m.granted_capabilities@[i]@,
        m@.runtime_properties is Some <==> m.runtime_properties is Some,
        m.runtime_properties matches Some(held) ==> m@.runtime_properties == Some(held@),
        m@.wasi_runtime_grant is Some <==> m.wasi_runtime_grant is Some,
        m.wasi_runtime_grant matches Some(held) ==> m@.wasi_runtime_grant == Some(held@),
{
}

/// Every field of a [`WasmComponentRef`] is in its view, as it is.
pub proof fn law_wasm_component_ref_view(m: WasmComponentRef)
    ensures
        m@.id == m.id@,
        m@.role == m.role@,
        m@.path == m.path@,
{
}

/// Every field of a [`WasmCompositionEdge`] is in its view, as it is.
pub proof fn law_wasm_composition_edge_view(m: WasmCompositionEdge)
    ensures
        m@.from == m.from@,
        m@.to == m.to@,
        m@.interface == m.interface@,
{
}

/// Every field of a [`WasmWorkloadConfig`] is in its view, as it is.
pub proof fn law_wasm_workload_config_view(m: WasmWorkloadConfig)
    ensures
        m@.components.len() == m.components@.len(),
        forall|i: int|
            0 <= i < m.components@.len() ==> (#[trigger] m@.components[i]) == m.components@[i]@,
        m@.edges.len() == m.edges@.len(),
        forall|i: int| 0 <= i < m.edges@.len() ==> (#[trigger] m@.edges[i]) == m.edges@[i]@,
        m@.entry_component == m.entry_component@,
        m@.entry_interface == m.entry_interface@,
        m@.entry_function == m.entry_function@,
{
}

/// Every field of a [`OrchestratorWorkloadConfig`] is in its view, as it is.
pub proof fn law_orchestrator_workload_config_view(m: OrchestratorWorkloadConfig)
    ensures
        m@.workload_kind == m.workload_kind,
        m@.wasm is Some <==> m.wasm is Some,
        m.wasm matches Some(held) ==> m@.wasm == Some(held@),
{
}

/// Every field of a [`ProtectedResponse`] is in its view, as it is.
pub proof fn law_protected_response_view(m: ProtectedResponse)
    ensures
        m@.decryption_keys.len() == m.decryption_keys@.len(),
        forall|i: int|
            0 <= i < m.decryption_keys@.len() ==> (#[trigger] m@.decryption_keys[i]) == m.decryption_keys@[i]@,
        m@.result_encryption_keys.len() == m.result_encryption_keys@.len(),
        forall|i: int|
            0 <= i < m.result_encryption_keys@.len() ==> (#[trigger] m@.result_encryption_keys[i]) == m.result_encryption_keys@[i]@,
{
}

/// The numbers that the values of enumerated fields have.
pub proof fn law_enumerated_numbers()
    ensures
        Enforcement::Unknown.number() == 0,
        Enforcement::Denied.number() == 1,
        Enforcement::Granted.number() == 2,
        Provenance::Unspecified.number() == 0,
        Provenance::HostProvided.number() == 1,
        StdioGrant::Closed.number() == 0,
        StdioGrant::Sink.number() == 1,
        StdioGrant::Inherit.number() == 2,
        RandomGrant::Absent.number() == 0,
        RandomGrant::Secure.number() == 1,
        WorkloadKind::Unspecified.number() == 0,
        WorkloadKind::Container.number() == 1,
        WorkloadKind::Wasm.number() == 2,
{
}

} // verus!
