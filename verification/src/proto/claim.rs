//! The capability claim and what it is made of.

use crate::message;
use crate::message::{Message, Schema};
use crate::order;
use crate::wire;
use crate::wire::{Field, WireError};
use vstd::prelude::*;

verus! {

/// Whether a runtime property holds.
#[derive(Debug, Clone, Copy, PartialEq, Eq, Structural)]
pub enum Enforcement {
    /// Never derived; it marks a claim that was not filled in.
    Unknown,
    /// The composition cannot exercise it.
    Denied,
    /// The composition can exercise it.
    Granted,
}

impl Enforcement {
    /// The number on the wire.
    pub open spec fn spec_number(self) -> i32 {
        match self {
            Enforcement::Unknown => 0,
            Enforcement::Denied => 1,
            Enforcement::Granted => 2,
        }
    }

    /// The number on the wire.
    #[verifier::when_used_as_spec(spec_number)]
    pub fn number(self) -> (n: i32)
        ensures
            n == self.spec_number(),
    {
        match self {
            Enforcement::Unknown => 0,
            Enforcement::Denied => 1,
            Enforcement::Granted => 2,
        }
    }
}

/// Who satisfies an import.
#[derive(Debug, Clone, Copy, PartialEq, Eq, Structural)]
pub enum Provenance {
    Unspecified,
    /// The host.
    HostProvided,
}

impl Provenance {
    /// The number on the wire.
    pub open spec fn spec_number(self) -> i32 {
        match self {
            Provenance::Unspecified => 0,
            Provenance::HostProvided => 1,
        }
    }

    /// The number on the wire.
    #[verifier::when_used_as_spec(spec_number)]
    pub fn number(self) -> (n: i32)
        ensures
            n == self.spec_number(),
    {
        match self {
            Provenance::Unspecified => 0,
            Provenance::HostProvided => 1,
        }
    }
}

/// Where a standard stream leads.
#[derive(Debug, Clone, Copy, PartialEq, Eq, Structural)]
pub enum StdioGrant {
    /// Nowhere: reading ends at once.
    Closed,
    /// Nowhere: what is written is dropped.
    Sink,
    /// To the stream of the host process.
    Inherit,
}

impl StdioGrant {
    /// The number on the wire.
    pub open spec fn spec_number(self) -> i32 {
        match self {
            StdioGrant::Closed => 0,
            StdioGrant::Sink => 1,
            StdioGrant::Inherit => 2,
        }
    }

    /// The number on the wire.
    #[verifier::when_used_as_spec(spec_number)]
    pub fn number(self) -> (n: i32)
        ensures
            n == self.spec_number(),
    {
        match self {
            StdioGrant::Closed => 0,
            StdioGrant::Sink => 1,
            StdioGrant::Inherit => 2,
        }
    }
}

/// Which random numbers a guest gets.
#[derive(Debug, Clone, Copy, PartialEq, Eq, Structural)]
pub enum RandomGrant {
    /// No random numbers.
    Absent,
    /// The secure generator.
    Secure,
}

impl RandomGrant {
    /// The number on the wire.
    pub open spec fn spec_number(self) -> i32 {
        match self {
            RandomGrant::Absent => 0,
            RandomGrant::Secure => 1,
        }
    }

    /// The number on the wire.
    #[verifier::when_used_as_spec(spec_number)]
    pub fn number(self) -> (n: i32)
        ensures
            n == self.spec_number(),
    {
        match self {
            RandomGrant::Absent => 0,
            RandomGrant::Secure => 1,
        }
    }
}

/// One component of the claimed composition.
#[derive(Debug, Clone)]
pub struct ComponentClaim {
    pub id: String,
    pub role: String,
    /// SHA-256 of the exact component binary.
    pub digest: Vec<u8>,
    pub confidential: bool,
}

/// The mathematical counterpart of [`ComponentClaim`].
#[verifier::ext_equal]
pub struct ComponentClaimView {
    pub id: Seq<char>,
    pub role: Seq<char>,
    pub digest: Seq<u8>,
    pub confidential: bool,
}

impl View for ComponentClaim {
    type V = ComponentClaimView;

    open spec fn view(&self) -> ComponentClaimView {
        ComponentClaimView {
            id: self.id@,
            role: self.role@,
            digest: self.digest@,
            confidential: self.confidential,
        }
    }
}

impl Schema for ComponentClaim {
    open spec fn default_view() -> ComponentClaimView {
        ComponentClaimView {
            id: Seq::empty(),
            role: Seq::empty(),
            digest: Seq::empty(),
            confidential: false,
        }
    }

    open spec fn fields_of(v: ComponentClaimView) -> Seq<wire::FieldView> {
        message::text_field(1, v.id)
            + message::text_field(2, v.role)
            + message::bytes_field(3, v.digest)
            + message::bool_field(4, v.confidential)
    }

    open spec fn merge_field(v: ComponentClaimView, field: wire::FieldView, limit: nat) -> Option<ComponentClaimView> {
        if field.tag == 1 {
            match message::as_text(field.value) {
                None => None,
                Some(id) => Some(ComponentClaimView { id, ..v }),
            }
        } else if field.tag == 2 {
            match message::as_text(field.value) {
                None => None,
                Some(role) => Some(ComponentClaimView { role, ..v }),
            }
        } else if field.tag == 3 {
            match message::as_bytes(field.value) {
                None => None,
                Some(digest) => Some(ComponentClaimView { digest, ..v }),
            }
        } else if field.tag == 4 {
            match message::as_bool(field.value) {
                None => None,
                Some(confidential) => Some(ComponentClaimView { confidential, ..v }),
            }
        } else {
            Some(v)
        }
    }

    open spec fn depth() -> nat {
        1
    }
}

impl Message for ComponentClaim {
    proof fn merge_round_trip(v: ComponentClaimView, limit: nat) {
        let all = Self::fields_of(v);
        let d0 = Self::default_view();
        let f1 = message::text_field(1, v.id);
        let f2 = message::text_field(2, v.role);
        let f3 = message::bytes_field(3, v.digest);
        let f4 = message::bool_field(4, v.confidential);
        let p1 = f1;
        let p2 = p1 + f2;
        let p3 = p2 + f3;
        let p4 = p3 + f4;
        message::lemma_reaches_default::<Self>(limit);
        assert(Seq::empty() + f1 =~= p1);
        let d1 = ComponentClaimView { id: v.id, ..d0 };
        assert(message::reaches::<Self>(p1, d1, limit)) by {
            message::lemma_text_round_trip(v.id);
            assert(f1.len() == 1 || d0 =~= d1);
            message::lemma_reaches_field::<Self>(Seq::empty(), f1, d0, d1, limit);
        }
        let d2 = ComponentClaimView { role: v.role, ..d1 };
        assert(message::reaches::<Self>(p2, d2, limit)) by {
            message::lemma_text_round_trip(v.role);
            assert(f2.len() == 1 || d1 =~= d2);
            message::lemma_reaches_field::<Self>(p1, f2, d1, d2, limit);
        }
        let d3 = ComponentClaimView { digest: v.digest, ..d2 };
        assert(message::reaches::<Self>(p3, d3, limit)) by {
            assert(f3.len() == 1 || d2 =~= d3);
            message::lemma_reaches_field::<Self>(p2, f3, d2, d3, limit);
        }
        let d4 = ComponentClaimView { confidential: v.confidential, ..d3 };
        assert(message::reaches::<Self>(p4, d4, limit)) by {
            assert(f4.len() == 1 || d3 =~= d4);
            message::lemma_reaches_field::<Self>(p3, f4, d3, d4, limit);
        }
        assert(d4 =~= v);
        message::lemma_fitting_is_writable(all);
    }

    fn empty() -> Self {
        ComponentClaim {
            id: String::new(),
            role: String::new(),
            digest: Vec::new(),
            confidential: false,
        }
    }

    fn fields(&self) -> Vec<Field> {
        let mut out: Vec<Field> = Vec::new();
        message::push_text(&mut out, 1, &self.id);
        message::push_text(&mut out, 2, &self.role);
        message::push_bytes(&mut out, 3, &self.digest);
        message::push_bool(&mut out, 4, self.confidential);
        assert(order::views(out@) =~= Self::fields_of(self@));
        out
    }

    fn merge(&mut self, field: &Field, limit: u32) -> Result<(), WireError> {
        if field.tag == 1 {
            match message::read_text(&field.value) {
                None => return Err(WireError),
                Some(id) => self.id = id,
            }
        } else if field.tag == 2 {
            match message::read_text(&field.value) {
                None => return Err(WireError),
                Some(role) => self.role = role,
            }
        } else if field.tag == 3 {
            match message::read_bytes(&field.value) {
                None => return Err(WireError),
                Some(digest) => self.digest = digest,
            }
        } else if field.tag == 4 {
            match message::read_bool(&field.value) {
                None => return Err(WireError),
                Some(confidential) => self.confidential = confidential,
            }
        }
        Ok(())
    }
}

/// Host-mediated wiring between two components. An empty name is the external
/// endpoint.
#[derive(Debug, Clone)]
pub struct Edge {
    pub from: String,
    pub to: String,
    pub interface: String,
}

/// The mathematical counterpart of [`Edge`].
#[verifier::ext_equal]
pub struct EdgeView {
    pub from: Seq<char>,
    pub to: Seq<char>,
    pub interface: Seq<char>,
}

impl View for Edge {
    type V = EdgeView;

    open spec fn view(&self) -> EdgeView {
        EdgeView {
            from: self.from@,
            to: self.to@,
            interface: self.interface@,
        }
    }
}

impl Schema for Edge {
    open spec fn default_view() -> EdgeView {
        EdgeView {
            from: Seq::empty(),
            to: Seq::empty(),
            interface: Seq::empty(),
        }
    }

    open spec fn fields_of(v: EdgeView) -> Seq<wire::FieldView> {
        message::text_field(1, v.from)
            + message::text_field(2, v.to)
            + message::text_field(3, v.interface)
    }

    open spec fn merge_field(v: EdgeView, field: wire::FieldView, limit: nat) -> Option<EdgeView> {
        if field.tag == 1 {
            match message::as_text(field.value) {
                None => None,
                Some(from) => Some(EdgeView { from, ..v }),
            }
        } else if field.tag == 2 {
            match message::as_text(field.value) {
                None => None,
                Some(to) => Some(EdgeView { to, ..v }),
            }
        } else if field.tag == 3 {
            match message::as_text(field.value) {
                None => None,
                Some(interface) => Some(EdgeView { interface, ..v }),
            }
        } else {
            Some(v)
        }
    }

    open spec fn depth() -> nat {
        1
    }
}

impl Message for Edge {
    proof fn merge_round_trip(v: EdgeView, limit: nat) {
        let all = Self::fields_of(v);
        let d0 = Self::default_view();
        let f1 = message::text_field(1, v.from);
        let f2 = message::text_field(2, v.to);
        let f3 = message::text_field(3, v.interface);
        let p1 = f1;
        let p2 = p1 + f2;
        let p3 = p2 + f3;
        message::lemma_reaches_default::<Self>(limit);
        assert(Seq::empty() + f1 =~= p1);
        let d1 = EdgeView { from: v.from, ..d0 };
        assert(message::reaches::<Self>(p1, d1, limit)) by {
            message::lemma_text_round_trip(v.from);
            assert(f1.len() == 1 || d0 =~= d1);
            message::lemma_reaches_field::<Self>(Seq::empty(), f1, d0, d1, limit);
        }
        let d2 = EdgeView { to: v.to, ..d1 };
        assert(message::reaches::<Self>(p2, d2, limit)) by {
            message::lemma_text_round_trip(v.to);
            assert(f2.len() == 1 || d1 =~= d2);
            message::lemma_reaches_field::<Self>(p1, f2, d1, d2, limit);
        }
        let d3 = EdgeView { interface: v.interface, ..d2 };
        assert(message::reaches::<Self>(p3, d3, limit)) by {
            message::lemma_text_round_trip(v.interface);
            assert(f3.len() == 1 || d2 =~= d3);
            message::lemma_reaches_field::<Self>(p2, f3, d2, d3, limit);
        }
        assert(d3 =~= v);
        message::lemma_fitting_is_writable(all);
    }

    fn empty() -> Self {
        Edge {
            from: String::new(),
            to: String::new(),
            interface: String::new(),
        }
    }

    fn fields(&self) -> Vec<Field> {
        let mut out: Vec<Field> = Vec::new();
        message::push_text(&mut out, 1, &self.from);
        message::push_text(&mut out, 2, &self.to);
        message::push_text(&mut out, 3, &self.interface);
        assert(order::views(out@) =~= Self::fields_of(self@));
        out
    }

    fn merge(&mut self, field: &Field, limit: u32) -> Result<(), WireError> {
        if field.tag == 1 {
            match message::read_text(&field.value) {
                None => return Err(WireError),
                Some(from) => self.from = from,
            }
        } else if field.tag == 2 {
            match message::read_text(&field.value) {
                None => return Err(WireError),
                Some(to) => self.to = to,
            }
        } else if field.tag == 3 {
            match message::read_text(&field.value) {
                None => return Err(WireError),
                Some(interface) => self.interface = interface,
            }
        }
        Ok(())
    }
}

/// The canonical composition graph: sorted node names and sorted edges.
#[derive(Debug, Clone)]
pub struct CompositionGraph {
    pub nodes: Vec<String>,
    pub edges: Vec<Edge>,
}

/// The mathematical counterpart of [`CompositionGraph`].
#[verifier::ext_equal]
pub struct CompositionGraphView {
    pub nodes: Seq<Seq<char>>,
    pub edges: Seq<EdgeView>,
}

impl View for CompositionGraph {
    type V = CompositionGraphView;

    open spec fn view(&self) -> CompositionGraphView {
        CompositionGraphView {
            nodes: order::views(self.nodes@),
            edges: order::views(self.edges@),
        }
    }
}

impl Schema for CompositionGraph {
    open spec fn default_view() -> CompositionGraphView {
        CompositionGraphView {
            nodes: Seq::empty(),
            edges: Seq::empty(),
        }
    }

    open spec fn fields_of(v: CompositionGraphView) -> Seq<wire::FieldView> {
        message::repeated_field(1, message::texts(v.nodes))
            + message::repeated_field(2, message::encodings::<Edge>(v.edges))
    }

    open spec fn merge_field(v: CompositionGraphView, field: wire::FieldView, limit: nat) -> Option<CompositionGraphView> {
        if field.tag == 1 {
            match message::as_text(field.value) {
                None => None,
                Some(item) => Some(CompositionGraphView { nodes: v.nodes.push(item), ..v }),
            }
        } else if field.tag == 2 {
            match message::as_message::<Edge>(None, field.value, limit) {
                None => None,
                Some(item) => Some(CompositionGraphView { edges: v.edges.push(item), ..v }),
            }
        } else {
            Some(v)
        }
    }

    open spec fn depth() -> nat {
        2
    }
}

impl Message for CompositionGraph {
    proof fn merge_round_trip(v: CompositionGraphView, limit: nat) {
        let all = Self::fields_of(v);
        let d0 = Self::default_view();
        let f1 = message::repeated_field(1, message::texts(v.nodes));
        let f2 = message::repeated_field(2, message::encodings::<Edge>(v.edges));
        let p1 = f1;
        let p2 = p1 + f2;
        assert(wire::fields_bytes(f2).len() <= u64::MAX) by {
            message::lemma_parts_fit(p1, f2);
        }
        message::lemma_reaches_default::<Self>(limit);
        assert(Seq::empty() + f1 =~= p1);
        let d1 = CompositionGraphView { nodes: v.nodes, ..d0 };
        assert(message::reaches::<Self>(p1, d1, limit)) by {
            let steps = |k: int| CompositionGraphView { nodes: v.nodes.take(k), ..d0 };
            assert forall|k: int| 0 <= k < f1.len() implies Self::merge_field(
                steps(k),
                #[trigger] f1[k],
                limit,
            ) == Some(steps(k + 1)) by {
                message::lemma_text_round_trip(v.nodes[k]);
                assert(v.nodes.take(k).push(v.nodes[k]) =~= v.nodes.take(k + 1));
            }
            assert(steps(0) =~= d0);
            assert(steps(f1.len() as int) =~= d1);
            message::lemma_reaches_run::<Self>(Seq::empty(), f1, steps, limit);
        }
        let d2 = CompositionGraphView { edges: v.edges, ..d1 };
        assert(message::reaches::<Self>(p2, d2, limit)) by {
            let steps = |k: int| CompositionGraphView { edges: v.edges.take(k), ..d1 };
            assert forall|k: int| 0 <= k < f2.len() implies Self::merge_field(
                steps(k),
                #[trigger] f2[k],
                limit,
            ) == Some(steps(k + 1)) by {
                message::lemma_payload_fits(f2, k);
                message::lemma_message_round_trip::<Edge>(v.edges[k], limit);
                assert(v.edges.take(k).push(v.edges[k]) =~= v.edges.take(k + 1));
            }
            assert(steps(0) =~= d1);
            assert(steps(f2.len() as int) =~= d2);
            message::lemma_reaches_run::<Self>(p1, f2, steps, limit);
        }
        assert(d2 =~= v);
        message::lemma_fitting_is_writable(all);
    }

    fn empty() -> Self {
        let m = CompositionGraph {
            nodes: Vec::new(),
            edges: Vec::new(),
        };
        assert(m@ =~= Self::default_view());
        m
    }

    fn fields(&self) -> Vec<Field> {
        let mut out: Vec<Field> = Vec::new();
        message::push_texts(&mut out, 1, &self.nodes);
        message::push_messages(&mut out, 2, &self.edges);
        assert(order::views(out@) =~= Self::fields_of(self@));
        out
    }

    fn merge(&mut self, field: &Field, limit: u32) -> Result<(), WireError> {
        if field.tag == 1 {
            match message::read_text(&field.value) {
                None => return Err(WireError),
                Some(item) => self.nodes.push(item),
            }
        } else if field.tag == 2 {
            match message::read_message(None, &field.value, limit) {
                None => return Err(WireError),
                Some(item) => self.edges.push(item),
            }
        }
        proof {
            if let Some(v) = Self::merge_field(old(self)@, field@, limit as nat) {
                assert(order::views(self.nodes@) =~= v.nodes);
                assert(order::views(self.edges@) =~= v.edges);
            }
        }
        Ok(())
    }
}

/// An interface that a component imports and that no edge satisfies.
#[derive(Debug, Clone)]
pub struct GrantedWasiCapability {
    pub interface: String,
    pub component_id: String,
    pub operations: Vec<String>,
    pub resources: Vec<String>,
    /// A [`Provenance`] number.
    pub provenance: i32,
}

/// The mathematical counterpart of [`GrantedWasiCapability`].
#[verifier::ext_equal]
pub struct GrantedWasiCapabilityView {
    pub interface: Seq<char>,
    pub component_id: Seq<char>,
    pub operations: Seq<Seq<char>>,
    pub resources: Seq<Seq<char>>,
    pub provenance: i32,
}

impl View for GrantedWasiCapability {
    type V = GrantedWasiCapabilityView;

    open spec fn view(&self) -> GrantedWasiCapabilityView {
        GrantedWasiCapabilityView {
            interface: self.interface@,
            component_id: self.component_id@,
            operations: order::views(self.operations@),
            resources: order::views(self.resources@),
            provenance: self.provenance,
        }
    }
}

impl Schema for GrantedWasiCapability {
    open spec fn default_view() -> GrantedWasiCapabilityView {
        GrantedWasiCapabilityView {
            interface: Seq::empty(),
            component_id: Seq::empty(),
            operations: Seq::empty(),
            resources: Seq::empty(),
            provenance: 0,
        }
    }

    open spec fn fields_of(v: GrantedWasiCapabilityView) -> Seq<wire::FieldView> {
        message::text_field(1, v.interface)
            + message::text_field(2, v.component_id)
            + message::repeated_field(3, message::texts(v.operations))
            + message::repeated_field(4, message::texts(v.resources))
            + message::int32_field(5, v.provenance)
    }

    open spec fn merge_field(v: GrantedWasiCapabilityView, field: wire::FieldView, limit: nat) -> Option<GrantedWasiCapabilityView> {
        if field.tag == 1 {
            match message::as_text(field.value) {
                None => None,
                Some(interface) => Some(GrantedWasiCapabilityView { interface, ..v }),
            }
        } else if field.tag == 2 {
            match message::as_text(field.value) {
                None => None,
                Some(component_id) => Some(GrantedWasiCapabilityView { component_id, ..v }),
            }
        } else if field.tag == 3 {
            match message::as_text(field.value) {
                None => None,
                Some(item) => Some(GrantedWasiCapabilityView { operations: v.operations.push(item), ..v }),
            }
        } else if field.tag == 4 {
            match message::as_text(field.value) {
                None => None,
                Some(item) => Some(GrantedWasiCapabilityView { resources: v.resources.push(item), ..v }),
            }
        } else if field.tag == 5 {
            match message::as_int32(field.value) {
                None => None,
                Some(provenance) => Some(GrantedWasiCapabilityView { provenance, ..v }),
            }
        } else {
            Some(v)
        }
    }

    open spec fn depth() -> nat {
        1
    }
}

impl Message for GrantedWasiCapability {
    proof fn merge_round_trip(v: GrantedWasiCapabilityView, limit: nat) {
        let all = Self::fields_of(v);
        let d0 = Self::default_view();
        let f1 = message::text_field(1, v.interface);
        let f2 = message::text_field(2, v.component_id);
        let f3 = message::repeated_field(3, message::texts(v.operations));
        let f4 = message::repeated_field(4, message::texts(v.resources));
        let f5 = message::int32_field(5, v.provenance);
        let p1 = f1;
        let p2 = p1 + f2;
        let p3 = p2 + f3;
        let p4 = p3 + f4;
        let p5 = p4 + f5;
        message::lemma_reaches_default::<Self>(limit);
        assert(Seq::empty() + f1 =~= p1);
        let d1 = GrantedWasiCapabilityView { interface: v.interface, ..d0 };
        assert(message::reaches::<Self>(p1, d1, limit)) by {
            message::lemma_text_round_trip(v.interface);
            assert(f1.len() == 1 || d0 =~= d1);
            message::lemma_reaches_field::<Self>(Seq::empty(), f1, d0, d1, limit);
        }
        let d2 = GrantedWasiCapabilityView { component_id: v.component_id, ..d1 };
        assert(message::reaches::<Self>(p2, d2, limit)) by {
            message::lemma_text_round_trip(v.component_id);
            assert(f2.len() == 1 || d1 =~= d2);
            message::lemma_reaches_field::<Self>(p1, f2, d1, d2, limit);
        }
        let d3 = GrantedWasiCapabilityView { operations: v.operations, ..d2 };
        assert(message::reaches::<Self>(p3, d3, limit)) by {
            let steps = |k: int| GrantedWasiCapabilityView { operations: v.operations.take(k), ..d2 };
            assert forall|k: int| 0 <= k < f3.len() implies Self::merge_field(
                steps(k),
                #[trigger] f3[k],
                limit,
            ) == Some(steps(k + 1)) by {
                message::lemma_text_round_trip(v.operations[k]);
                assert(v.operations.take(k).push(v.operations[k]) =~= v.operations.take(k + 1));
            }
            assert(steps(0) =~= d2);
            assert(steps(f3.len() as int) =~= d3);
            message::lemma_reaches_run::<Self>(p2, f3, steps, limit);
        }
        let d4 = GrantedWasiCapabilityView { resources: v.resources, ..d3 };
        assert(message::reaches::<Self>(p4, d4, limit)) by {
            let steps = |k: int| GrantedWasiCapabilityView { resources: v.resources.take(k), ..d3 };
            assert forall|k: int| 0 <= k < f4.len() implies Self::merge_field(
                steps(k),
                #[trigger] f4[k],
                limit,
            ) == Some(steps(k + 1)) by {
                message::lemma_text_round_trip(v.resources[k]);
                assert(v.resources.take(k).push(v.resources[k]) =~= v.resources.take(k + 1));
            }
            assert(steps(0) =~= d3);
            assert(steps(f4.len() as int) =~= d4);
            message::lemma_reaches_run::<Self>(p3, f4, steps, limit);
        }
        let d5 = GrantedWasiCapabilityView { provenance: v.provenance, ..d4 };
        assert(message::reaches::<Self>(p5, d5, limit)) by {
            message::lemma_int32_round_trip(v.provenance);
            assert(f5.len() == 1 || d4 =~= d5);
            message::lemma_reaches_field::<Self>(p4, f5, d4, d5, limit);
        }
        assert(d5 =~= v);
        message::lemma_fitting_is_writable(all);
    }

    fn empty() -> Self {
        let m = GrantedWasiCapability {
            interface: String::new(),
            component_id: String::new(),
            operations: Vec::new(),
            resources: Vec::new(),
            provenance: 0,
        };
        assert(m@ =~= Self::default_view());
        m
    }

    fn fields(&self) -> Vec<Field> {
        let mut out: Vec<Field> = Vec::new();
        message::push_text(&mut out, 1, &self.interface);
        message::push_text(&mut out, 2, &self.component_id);
        message::push_texts(&mut out, 3, &self.operations);
        message::push_texts(&mut out, 4, &self.resources);
        message::push_int32(&mut out, 5, self.provenance);
        assert(order::views(out@) =~= Self::fields_of(self@));
        out
    }

    fn merge(&mut self, field: &Field, limit: u32) -> Result<(), WireError> {
        if field.tag == 1 {
            match message::read_text(&field.value) {
                None => return Err(WireError),
                Some(interface) => self.interface = interface,
            }
        } else if field.tag == 2 {
            match message::read_text(&field.value) {
                None => return Err(WireError),
                Some(component_id) => self.component_id = component_id,
            }
        } else if field.tag == 3 {
            match message::read_text(&field.value) {
                None => return Err(WireError),
                Some(item) => self.operations.push(item),
            }
        } else if field.tag == 4 {
            match message::read_text(&field.value) {
                None => return Err(WireError),
                Some(item) => self.resources.push(item),
            }
        } else if field.tag == 5 {
            match message::read_int32(&field.value) {
                None => return Err(WireError),
                Some(provenance) => self.provenance = provenance,
            }
        }
        proof {
            if let Some(v) = Self::merge_field(old(self)@, field@, limit as nat) {
                assert(order::views(self.operations@) =~= v.operations);
                assert(order::views(self.resources@) =~= v.resources);
            }
        }
        Ok(())
    }
}

/// The engine that runs the composition.
#[derive(Debug, Clone)]
pub struct WasmRuntimeInfo {
    pub engine: String,
    pub engine_version: String,
    pub wasi_version: String,
    pub component_model: bool,
    pub dynamic_loading: bool,
}

/// The mathematical counterpart of [`WasmRuntimeInfo`].
#[verifier::ext_equal]
pub struct WasmRuntimeInfoView {
    pub engine: Seq<char>,
    pub engine_version: Seq<char>,
    pub wasi_version: Seq<char>,
    pub component_model: bool,
    pub dynamic_loading: bool,
}

impl View for WasmRuntimeInfo {
    type V = WasmRuntimeInfoView;

    open spec fn view(&self) -> WasmRuntimeInfoView {
        WasmRuntimeInfoView {
            engine: self.engine@,
            engine_version: self.engine_version@,
            wasi_version: self.wasi_version@,
            component_model: self.component_model,
            dynamic_loading: self.dynamic_loading,
        }
    }
}

impl Schema for WasmRuntimeInfo {
    open spec fn default_view() -> WasmRuntimeInfoView {
        WasmRuntimeInfoView {
            engine: Seq::empty(),
            engine_version: Seq::empty(),
            wasi_version: Seq::empty(),
            component_model: false,
            dynamic_loading: false,
        }
    }

    open spec fn fields_of(v: WasmRuntimeInfoView) -> Seq<wire::FieldView> {
        message::text_field(1, v.engine)
            + message::text_field(2, v.engine_version)
            + message::text_field(3, v.wasi_version)
            + message::bool_field(4, v.component_model)
            + message::bool_field(5, v.dynamic_loading)
    }

    open spec fn merge_field(v: WasmRuntimeInfoView, field: wire::FieldView, limit: nat) -> Option<WasmRuntimeInfoView> {
        if field.tag == 1 {
            match message::as_text(field.value) {
                None => None,
                Some(engine) => Some(WasmRuntimeInfoView { engine, ..v }),
            }
        } else if field.tag == 2 {
            match message::as_text(field.value) {
                None => None,
                Some(engine_version) => Some(WasmRuntimeInfoView { engine_version, ..v }),
            }
        } else if field.tag == 3 {
            match message::as_text(field.value) {
                None => None,
                Some(wasi_version) => Some(WasmRuntimeInfoView { wasi_version, ..v }),
            }
        } else if field.tag == 4 {
            match message::as_bool(field.value) {
                None => None,
                Some(component_model) => Some(WasmRuntimeInfoView { component_model, ..v }),
            }
        } else if field.tag == 5 {
            match message::as_bool(field.value) {
                None => None,
                Some(dynamic_loading) => Some(WasmRuntimeInfoView { dynamic_loading, ..v }),
            }
        } else {
            Some(v)
        }
    }

    open spec fn depth() -> nat {
        1
    }
}

impl Message for WasmRuntimeInfo {
    proof fn merge_round_trip(v: WasmRuntimeInfoView, limit: nat) {
        let all = Self::fields_of(v);
        let d0 = Self::default_view();
        let f1 = message::text_field(1, v.engine);
        let f2 = message::text_field(2, v.engine_version);
        let f3 = message::text_field(3, v.wasi_version);
        let f4 = message::bool_field(4, v.component_model);
        let f5 = message::bool_field(5, v.dynamic_loading);
        let p1 = f1;
        let p2 = p1 + f2;
        let p3 = p2 + f3;
        let p4 = p3 + f4;
        let p5 = p4 + f5;
        message::lemma_reaches_default::<Self>(limit);
        assert(Seq::empty() + f1 =~= p1);
        let d1 = WasmRuntimeInfoView { engine: v.engine, ..d0 };
        assert(message::reaches::<Self>(p1, d1, limit)) by {
            message::lemma_text_round_trip(v.engine);
            assert(f1.len() == 1 || d0 =~= d1);
            message::lemma_reaches_field::<Self>(Seq::empty(), f1, d0, d1, limit);
        }
        let d2 = WasmRuntimeInfoView { engine_version: v.engine_version, ..d1 };
        assert(message::reaches::<Self>(p2, d2, limit)) by {
            message::lemma_text_round_trip(v.engine_version);
            assert(f2.len() == 1 || d1 =~= d2);
            message::lemma_reaches_field::<Self>(p1, f2, d1, d2, limit);
        }
        let d3 = WasmRuntimeInfoView { wasi_version: v.wasi_version, ..d2 };
        assert(message::reaches::<Self>(p3, d3, limit)) by {
            message::lemma_text_round_trip(v.wasi_version);
            assert(f3.len() == 1 || d2 =~= d3);
            message::lemma_reaches_field::<Self>(p2, f3, d2, d3, limit);
        }
        let d4 = WasmRuntimeInfoView { component_model: v.component_model, ..d3 };
        assert(message::reaches::<Self>(p4, d4, limit)) by {
            assert(f4.len() == 1 || d3 =~= d4);
            message::lemma_reaches_field::<Self>(p3, f4, d3, d4, limit);
        }
        let d5 = WasmRuntimeInfoView { dynamic_loading: v.dynamic_loading, ..d4 };
        assert(message::reaches::<Self>(p5, d5, limit)) by {
            assert(f5.len() == 1 || d4 =~= d5);
            message::lemma_reaches_field::<Self>(p4, f5, d4, d5, limit);
        }
        assert(d5 =~= v);
        message::lemma_fitting_is_writable(all);
    }

    fn empty() -> Self {
        WasmRuntimeInfo {
            engine: String::new(),
            engine_version: String::new(),
            wasi_version: String::new(),
            component_model: false,
            dynamic_loading: false,
        }
    }

    fn fields(&self) -> Vec<Field> {
        let mut out: Vec<Field> = Vec::new();
        message::push_text(&mut out, 1, &self.engine);
        message::push_text(&mut out, 2, &self.engine_version);
        message::push_text(&mut out, 3, &self.wasi_version);
        message::push_bool(&mut out, 4, self.component_model);
        message::push_bool(&mut out, 5, self.dynamic_loading);
        assert(order::views(out@) =~= Self::fields_of(self@));
        out
    }

    fn merge(&mut self, field: &Field, limit: u32) -> Result<(), WireError> {
        if field.tag == 1 {
            match message::read_text(&field.value) {
                None => return Err(WireError),
                Some(engine) => self.engine = engine,
            }
        } else if field.tag == 2 {
            match message::read_text(&field.value) {
                None => return Err(WireError),
                Some(engine_version) => self.engine_version = engine_version,
            }
        } else if field.tag == 3 {
            match message::read_text(&field.value) {
                None => return Err(WireError),
                Some(wasi_version) => self.wasi_version = wasi_version,
            }
        } else if field.tag == 4 {
            match message::read_bool(&field.value) {
                None => return Err(WireError),
                Some(component_model) => self.component_model = component_model,
            }
        } else if field.tag == 5 {
            match message::read_bool(&field.value) {
                None => return Err(WireError),
                Some(dynamic_loading) => self.dynamic_loading = dynamic_loading,
            }
        }
        Ok(())
    }
}

/// Coarse runtime properties; each is an [`Enforcement`] number.
#[derive(Debug, Clone)]
pub struct RuntimeProperties {
    pub network: i32,
    pub persistent_storage: i32,
    pub wall_clock: i32,
    pub randomness: i32,
    pub environment: i32,
    pub spawn: i32,
}

/// The mathematical counterpart of [`RuntimeProperties`].
#[verifier::ext_equal]
pub struct RuntimePropertiesView {
    pub network: i32,
    pub persistent_storage: i32,
    pub wall_clock: i32,
    pub randomness: i32,
    pub environment: i32,
    pub spawn: i32,
}

impl View for RuntimeProperties {
    type V = RuntimePropertiesView;

    open spec fn view(&self) -> RuntimePropertiesView {
        RuntimePropertiesView {
            network: self.network,
            persistent_storage: self.persistent_storage,
            wall_clock: self.wall_clock,
            randomness: self.randomness,
            environment: self.environment,
            spawn: self.spawn,
        }
    }
}

impl Schema for RuntimeProperties {
    open spec fn default_view() -> RuntimePropertiesView {
        RuntimePropertiesView {
            network: 0,
            persistent_storage: 0,
            wall_clock: 0,
            randomness: 0,
            environment: 0,
            spawn: 0,
        }
    }

    open spec fn fields_of(v: RuntimePropertiesView) -> Seq<wire::FieldView> {
        message::int32_field(1, v.network)
            + message::int32_field(2, v.persistent_storage)
            + message::int32_field(3, v.wall_clock)
            + message::int32_field(4, v.randomness)
            + message::int32_field(5, v.environment)
            + message::int32_field(6, v.spawn)
    }

    open spec fn merge_field(v: RuntimePropertiesView, field: wire::FieldView, limit: nat) -> Option<RuntimePropertiesView> {
        if field.tag == 1 {
            match message::as_int32(field.value) {
                None => None,
                Some(network) => Some(RuntimePropertiesView { network, ..v }),
            }
        } else if field.tag == 2 {
            match message::as_int32(field.value) {
                None => None,
                Some(persistent_storage) => Some(RuntimePropertiesView { persistent_storage, ..v }),
            }
        } else if field.tag == 3 {
            match message::as_int32(field.value) {
                None => None,
                Some(wall_clock) => Some(RuntimePropertiesView { wall_clock, ..v }),
            }
        } else if field.tag == 4 {
            match message::as_int32(field.value) {
                None => None,
                Some(randomness) => Some(RuntimePropertiesView { randomness, ..v }),
            }
        } else if field.tag == 5 {
            match message::as_int32(field.value) {
                None => None,
                Some(environment) => Some(RuntimePropertiesView { environment, ..v }),
            }
        } else if field.tag == 6 {
            match message::as_int32(field.value) {
                None => None,
                Some(spawn) => Some(RuntimePropertiesView { spawn, ..v }),
            }
        } else {
            Some(v)
        }
    }

    open spec fn depth() -> nat {
        1
    }
}

impl Message for RuntimeProperties {
    proof fn merge_round_trip(v: RuntimePropertiesView, limit: nat) {
        let all = Self::fields_of(v);
        let d0 = Self::default_view();
        let f1 = message::int32_field(1, v.network);
        let f2 = message::int32_field(2, v.persistent_storage);
        let f3 = message::int32_field(3, v.wall_clock);
        let f4 = message::int32_field(4, v.randomness);
        let f5 = message::int32_field(5, v.environment);
        let f6 = message::int32_field(6, v.spawn);
        let p1 = f1;
        let p2 = p1 + f2;
        let p3 = p2 + f3;
        let p4 = p3 + f4;
        let p5 = p4 + f5;
        let p6 = p5 + f6;
        message::lemma_reaches_default::<Self>(limit);
        assert(Seq::empty() + f1 =~= p1);
        let d1 = RuntimePropertiesView { network: v.network, ..d0 };
        assert(message::reaches::<Self>(p1, d1, limit)) by {
            message::lemma_int32_round_trip(v.network);
            assert(f1.len() == 1 || d0 =~= d1);
            message::lemma_reaches_field::<Self>(Seq::empty(), f1, d0, d1, limit);
        }
        let d2 = RuntimePropertiesView { persistent_storage: v.persistent_storage, ..d1 };
        assert(message::reaches::<Self>(p2, d2, limit)) by {
            message::lemma_int32_round_trip(v.persistent_storage);
            assert(f2.len() == 1 || d1 =~= d2);
            message::lemma_reaches_field::<Self>(p1, f2, d1, d2, limit);
        }
        let d3 = RuntimePropertiesView { wall_clock: v.wall_clock, ..d2 };
        assert(message::reaches::<Self>(p3, d3, limit)) by {
            message::lemma_int32_round_trip(v.wall_clock);
            assert(f3.len() == 1 || d2 =~= d3);
            message::lemma_reaches_field::<Self>(p2, f3, d2, d3, limit);
        }
        let d4 = RuntimePropertiesView { randomness: v.randomness, ..d3 };
        assert(message::reaches::<Self>(p4, d4, limit)) by {
            message::lemma_int32_round_trip(v.randomness);
            assert(f4.len() == 1 || d3 =~= d4);
            message::lemma_reaches_field::<Self>(p3, f4, d3, d4, limit);
        }
        let d5 = RuntimePropertiesView { environment: v.environment, ..d4 };
        assert(message::reaches::<Self>(p5, d5, limit)) by {
            message::lemma_int32_round_trip(v.environment);
            assert(f5.len() == 1 || d4 =~= d5);
            message::lemma_reaches_field::<Self>(p4, f5, d4, d5, limit);
        }
        let d6 = RuntimePropertiesView { spawn: v.spawn, ..d5 };
        assert(message::reaches::<Self>(p6, d6, limit)) by {
            message::lemma_int32_round_trip(v.spawn);
            assert(f6.len() == 1 || d5 =~= d6);
            message::lemma_reaches_field::<Self>(p5, f6, d5, d6, limit);
        }
        assert(d6 =~= v);
        message::lemma_fitting_is_writable(all);
    }

    fn empty() -> Self {
        RuntimeProperties {
            network: 0,
            persistent_storage: 0,
            wall_clock: 0,
            randomness: 0,
            environment: 0,
            spawn: 0,
        }
    }

    fn fields(&self) -> Vec<Field> {
        let mut out: Vec<Field> = Vec::new();
        message::push_int32(&mut out, 1, self.network);
        message::push_int32(&mut out, 2, self.persistent_storage);
        message::push_int32(&mut out, 3, self.wall_clock);
        message::push_int32(&mut out, 4, self.randomness);
        message::push_int32(&mut out, 5, self.environment);
        message::push_int32(&mut out, 6, self.spawn);
        assert(order::views(out@) =~= Self::fields_of(self@));
        out
    }

    fn merge(&mut self, field: &Field, limit: u32) -> Result<(), WireError> {
        if field.tag == 1 {
            match message::read_int32(&field.value) {
                None => return Err(WireError),
                Some(network) => self.network = network,
            }
        } else if field.tag == 2 {
            match message::read_int32(&field.value) {
                None => return Err(WireError),
                Some(persistent_storage) => self.persistent_storage = persistent_storage,
            }
        } else if field.tag == 3 {
            match message::read_int32(&field.value) {
                None => return Err(WireError),
                Some(wall_clock) => self.wall_clock = wall_clock,
            }
        } else if field.tag == 4 {
            match message::read_int32(&field.value) {
                None => return Err(WireError),
                Some(randomness) => self.randomness = randomness,
            }
        } else if field.tag == 5 {
            match message::read_int32(&field.value) {
                None => return Err(WireError),
                Some(environment) => self.environment = environment,
            }
        } else if field.tag == 6 {
            match message::read_int32(&field.value) {
                None => return Err(WireError),
                Some(spawn) => self.spawn = spawn,
            }
        }
        Ok(())
    }
}

/// A directory that the guest can open.
#[derive(Debug, Clone)]
pub struct Preopen {
    pub guest_path: String,
    pub dir_perms: u32,
    pub file_perms: u32,
}

/// The mathematical counterpart of [`Preopen`].
#[verifier::ext_equal]
pub struct PreopenView {
    pub guest_path: Seq<char>,
    pub dir_perms: u32,
    pub file_perms: u32,
}

impl View for Preopen {
    type V = PreopenView;

    open spec fn view(&self) -> PreopenView {
        PreopenView {
            guest_path: self.guest_path@,
            dir_perms: self.dir_perms,
            file_perms: self.file_perms,
        }
    }
}

impl Schema for Preopen {
    open spec fn default_view() -> PreopenView {
        PreopenView {
            guest_path: Seq::empty(),
            dir_perms: 0,
            file_perms: 0,
        }
    }

    open spec fn fields_of(v: PreopenView) -> Seq<wire::FieldView> {
        message::text_field(1, v.guest_path)
            + message::uint32_field(2, v.dir_perms)
            + message::uint32_field(3, v.file_perms)
    }

    open spec fn merge_field(v: PreopenView, field: wire::FieldView, limit: nat) -> Option<PreopenView> {
        if field.tag == 1 {
            match message::as_text(field.value) {
                None => None,
                Some(guest_path) => Some(PreopenView { guest_path, ..v }),
            }
        } else if field.tag == 2 {
            match message::as_uint32(field.value) {
                None => None,
                Some(dir_perms) => Some(PreopenView { dir_perms, ..v }),
            }
        } else if field.tag == 3 {
            match message::as_uint32(field.value) {
                None => None,
                Some(file_perms) => Some(PreopenView { file_perms, ..v }),
            }
        } else {
            Some(v)
        }
    }

    open spec fn depth() -> nat {
        1
    }
}

impl Message for Preopen {
    proof fn merge_round_trip(v: PreopenView, limit: nat) {
        let all = Self::fields_of(v);
        let d0 = Self::default_view();
        let f1 = message::text_field(1, v.guest_path);
        let f2 = message::uint32_field(2, v.dir_perms);
        let f3 = message::uint32_field(3, v.file_perms);
        let p1 = f1;
        let p2 = p1 + f2;
        let p3 = p2 + f3;
        message::lemma_reaches_default::<Self>(limit);
        assert(Seq::empty() + f1 =~= p1);
        let d1 = PreopenView { guest_path: v.guest_path, ..d0 };
        assert(message::reaches::<Self>(p1, d1, limit)) by {
            message::lemma_text_round_trip(v.guest_path);
            assert(f1.len() == 1 || d0 =~= d1);
            message::lemma_reaches_field::<Self>(Seq::empty(), f1, d0, d1, limit);
        }
        let d2 = PreopenView { dir_perms: v.dir_perms, ..d1 };
        assert(message::reaches::<Self>(p2, d2, limit)) by {
            message::lemma_uint32_round_trip(v.dir_perms);
            assert(f2.len() == 1 || d1 =~= d2);
            message::lemma_reaches_field::<Self>(p1, f2, d1, d2, limit);
        }
        let d3 = PreopenView { file_perms: v.file_perms, ..d2 };
        assert(message::reaches::<Self>(p3, d3, limit)) by {
            message::lemma_uint32_round_trip(v.file_perms);
            assert(f3.len() == 1 || d2 =~= d3);
            message::lemma_reaches_field::<Self>(p2, f3, d2, d3, limit);
        }
        assert(d3 =~= v);
        message::lemma_fitting_is_writable(all);
    }

    fn empty() -> Self {
        Preopen {
            guest_path: String::new(),
            dir_perms: 0,
            file_perms: 0,
        }
    }

    fn fields(&self) -> Vec<Field> {
        let mut out: Vec<Field> = Vec::new();
        message::push_text(&mut out, 1, &self.guest_path);
        message::push_uint32(&mut out, 2, self.dir_perms);
        message::push_uint32(&mut out, 3, self.file_perms);
        assert(order::views(out@) =~= Self::fields_of(self@));
        out
    }

    fn merge(&mut self, field: &Field, limit: u32) -> Result<(), WireError> {
        if field.tag == 1 {
            match message::read_text(&field.value) {
                None => return Err(WireError),
                Some(guest_path) => self.guest_path = guest_path,
            }
        } else if field.tag == 2 {
            match message::read_uint32(&field.value) {
                None => return Err(WireError),
                Some(dir_perms) => self.dir_perms = dir_perms,
            }
        } else if field.tag == 3 {
            match message::read_uint32(&field.value) {
                None => return Err(WireError),
                Some(file_perms) => self.file_perms = file_perms,
            }
        }
        Ok(())
    }
}

/// What the host grants a guest.
#[derive(Debug, Clone)]
pub struct WasiRuntimeGrant {
    pub preopens: Vec<Preopen>,
    pub network: bool,
    pub env_names: Vec<String>,
    pub args: Vec<String>,
    /// A [`StdioGrant`] number.
    pub stdin: i32,
    /// A [`StdioGrant`] number.
    pub stdout: i32,
    /// A [`StdioGrant`] number.
    pub stderr: i32,
    pub wall_clock: bool,
    pub monotonic_clock: bool,
    /// A [`RandomGrant`] number.
    pub random: i32,
}

/// The mathematical counterpart of [`WasiRuntimeGrant`].
#[verifier::ext_equal]
pub struct WasiRuntimeGrantView {
    pub preopens: Seq<PreopenView>,
    pub network: bool,
    pub env_names: Seq<Seq<char>>,
    pub args: Seq<Seq<char>>,
    pub stdin: i32,
    pub stdout: i32,
    pub stderr: i32,
    pub wall_clock: bool,
    pub monotonic_clock: bool,
    pub random: i32,
}

impl View for WasiRuntimeGrant {
    type V = WasiRuntimeGrantView;

    open spec fn view(&self) -> WasiRuntimeGrantView {
        WasiRuntimeGrantView {
            preopens: order::views(self.preopens@),
            network: self.network,
            env_names: order::views(self.env_names@),
            args: order::views(self.args@),
            stdin: self.stdin,
            stdout: self.stdout,
            stderr: self.stderr,
            wall_clock: self.wall_clock,
            monotonic_clock: self.monotonic_clock,
            random: self.random,
        }
    }
}

impl Schema for WasiRuntimeGrant {
    open spec fn default_view() -> WasiRuntimeGrantView {
        WasiRuntimeGrantView {
            preopens: Seq::empty(),
            network: false,
            env_names: Seq::empty(),
            args: Seq::empty(),
            stdin: 0,
            stdout: 0,
            stderr: 0,
            wall_clock: false,
            monotonic_clock: false,
            random: 0,
        }
    }

    open spec fn fields_of(v: WasiRuntimeGrantView) -> Seq<wire::FieldView> {
        message::repeated_field(1, message::encodings::<Preopen>(v.preopens))
            + message::bool_field(2, v.network)
            + message::repeated_field(3, message::texts(v.env_names))
            + message::repeated_field(4, message::texts(v.args))
            + message::int32_field(5, v.stdin)
            + message::int32_field(6, v.stdout)
            + message::int32_field(7, v.stderr)
            + message::bool_field(8, v.wall_clock)
            + message::bool_field(9, v.monotonic_clock)
            + message::int32_field(10, v.random)
    }

    open spec fn merge_field(v: WasiRuntimeGrantView, field: wire::FieldView, limit: nat) -> Option<WasiRuntimeGrantView> {
        if field.tag == 1 {
            match message::as_message::<Preopen>(None, field.value, limit) {
                None => None,
                Some(item) => Some(WasiRuntimeGrantView { preopens: v.preopens.push(item), ..v }),
            }
        } else if field.tag == 2 {
            match message::as_bool(field.value) {
                None => None,
                Some(network) => Some(WasiRuntimeGrantView { network, ..v }),
            }
        } else if field.tag == 3 {
            match message::as_text(field.value) {
                None => None,
                Some(item) => Some(WasiRuntimeGrantView { env_names: v.env_names.push(item), ..v }),
            }
        } else if field.tag == 4 {
            match message::as_text(field.value) {
                None => None,
                Some(item) => Some(WasiRuntimeGrantView { args: v.args.push(item), ..v }),
            }
        } else if field.tag == 5 {
            match message::as_int32(field.value) {
                None => None,
                Some(stdin) => Some(WasiRuntimeGrantView { stdin, ..v }),
            }
        } else if field.tag == 6 {
            match message::as_int32(field.value) {
                None => None,
                Some(stdout) => Some(WasiRuntimeGrantView { stdout, ..v }),
            }
        } else if field.tag == 7 {
            match message::as_int32(field.value) {
                None => None,
                Some(stderr) => Some(WasiRuntimeGrantView { stderr, ..v }),
            }
        } else if field.tag == 8 {
            match message::as_bool(field.value) {
                None => None,
                Some(wall_clock) => Some(WasiRuntimeGrantView { wall_clock, ..v }),
            }
        } else if field.tag == 9 {
            match message::as_bool(field.value) {
                None => None,
                Some(monotonic_clock) => Some(WasiRuntimeGrantView { monotonic_clock, ..v }),
            }
        } else if field.tag == 10 {
            match message::as_int32(field.value) {
                None => None,
                Some(random) => Some(WasiRuntimeGrantView { random, ..v }),
            }
        } else {
            Some(v)
        }
    }

    open spec fn depth() -> nat {
        2
    }
}

impl Message for WasiRuntimeGrant {
    proof fn merge_round_trip(v: WasiRuntimeGrantView, limit: nat) {
        let all = Self::fields_of(v);
        let d0 = Self::default_view();
        let f1 = message::repeated_field(1, message::encodings::<Preopen>(v.preopens));
        let f2 = message::bool_field(2, v.network);
        let f3 = message::repeated_field(3, message::texts(v.env_names));
        let f4 = message::repeated_field(4, message::texts(v.args));
        let f5 = message::int32_field(5, v.stdin);
        let f6 = message::int32_field(6, v.stdout);
        let f7 = message::int32_field(7, v.stderr);
        let f8 = message::bool_field(8, v.wall_clock);
        let f9 = message::bool_field(9, v.monotonic_clock);
        let f10 = message::int32_field(10, v.random);
        let p1 = f1;
        let p2 = p1 + f2;
        let p3 = p2 + f3;
        let p4 = p3 + f4;
        let p5 = p4 + f5;
        let p6 = p5 + f6;
        let p7 = p6 + f7;
        let p8 = p7 + f8;
        let p9 = p8 + f9;
        let p10 = p9 + f10;
        assert(wire::fields_bytes(f1).len() <= u64::MAX) by {
            message::lemma_parts_fit(p9, f10);
            message::lemma_parts_fit(p8, f9);
            message::lemma_parts_fit(p7, f8);
            message::lemma_parts_fit(p6, f7);
            message::lemma_parts_fit(p5, f6);
            message::lemma_parts_fit(p4, f5);
            message::lemma_parts_fit(p3, f4);
            message::lemma_parts_fit(p2, f3);
            message::lemma_parts_fit(p1, f2);
        }
        message::lemma_reaches_default::<Self>(limit);
        assert(Seq::empty() + f1 =~= p1);
        let d1 = WasiRuntimeGrantView { preopens: v.preopens, ..d0 };
        assert(message::reaches::<Self>(p1, d1, limit)) by {
            let steps = |k: int| WasiRuntimeGrantView { preopens: v.preopens.take(k), ..d0 };
            assert forall|k: int| 0 <= k < f1.len() implies Self::merge_field(
                steps(k),
                #[trigger] f1[k],
                limit,
            ) == Some(steps(k + 1)) by {
                message::lemma_payload_fits(f1, k);
                message::lemma_message_round_trip::<Preopen>(v.preopens[k], limit);
                assert(v.preopens.take(k).push(v.preopens[k]) =~= v.preopens.take(k + 1));
            }
            assert(steps(0) =~= d0);
            assert(steps(f1.len() as int) =~= d1);
            message::lemma_reaches_run::<Self>(Seq::empty(), f1, steps, limit);
        }
        let d2 = WasiRuntimeGrantView { network: v.network, ..d1 };
        assert(message::reaches::<Self>(p2, d2, limit)) by {
            assert(f2.len() == 1 || d1 =~= d2);
            message::lemma_reaches_field::<Self>(p1, f2, d1, d2, limit);
        }
        let d3 = WasiRuntimeGrantView { env_names: v.env_names, ..d2 };
        assert(message::reaches::<Self>(p3, d3, limit)) by {
            let steps = |k: int| WasiRuntimeGrantView { env_names: v.env_names.take(k), ..d2 };
            assert forall|k: int| 0 <= k < f3.len() implies Self::merge_field(
                steps(k),
                #[trigger] f3[k],
                limit,
            ) == Some(steps(k + 1)) by {
                message::lemma_text_round_trip(v.env_names[k]);
                assert(v.env_names.take(k).push(v.env_names[k]) =~= v.env_names.take(k + 1));
            }
            assert(steps(0) =~= d2);
            assert(steps(f3.len() as int) =~= d3);
            message::lemma_reaches_run::<Self>(p2, f3, steps, limit);
        }
        let d4 = WasiRuntimeGrantView { args: v.args, ..d3 };
        assert(message::reaches::<Self>(p4, d4, limit)) by {
            let steps = |k: int| WasiRuntimeGrantView { args: v.args.take(k), ..d3 };
            assert forall|k: int| 0 <= k < f4.len() implies Self::merge_field(
                steps(k),
                #[trigger] f4[k],
                limit,
            ) == Some(steps(k + 1)) by {
                message::lemma_text_round_trip(v.args[k]);
                assert(v.args.take(k).push(v.args[k]) =~= v.args.take(k + 1));
            }
            assert(steps(0) =~= d3);
            assert(steps(f4.len() as int) =~= d4);
            message::lemma_reaches_run::<Self>(p3, f4, steps, limit);
        }
        let d5 = WasiRuntimeGrantView { stdin: v.stdin, ..d4 };
        assert(message::reaches::<Self>(p5, d5, limit)) by {
            message::lemma_int32_round_trip(v.stdin);
            assert(f5.len() == 1 || d4 =~= d5);
            message::lemma_reaches_field::<Self>(p4, f5, d4, d5, limit);
        }
        let d6 = WasiRuntimeGrantView { stdout: v.stdout, ..d5 };
        assert(message::reaches::<Self>(p6, d6, limit)) by {
            message::lemma_int32_round_trip(v.stdout);
            assert(f6.len() == 1 || d5 =~= d6);
            message::lemma_reaches_field::<Self>(p5, f6, d5, d6, limit);
        }
        let d7 = WasiRuntimeGrantView { stderr: v.stderr, ..d6 };
        assert(message::reaches::<Self>(p7, d7, limit)) by {
            message::lemma_int32_round_trip(v.stderr);
            assert(f7.len() == 1 || d6 =~= d7);
            message::lemma_reaches_field::<Self>(p6, f7, d6, d7, limit);
        }
        let d8 = WasiRuntimeGrantView { wall_clock: v.wall_clock, ..d7 };
        assert(message::reaches::<Self>(p8, d8, limit)) by {
            assert(f8.len() == 1 || d7 =~= d8);
            message::lemma_reaches_field::<Self>(p7, f8, d7, d8, limit);
        }
        let d9 = WasiRuntimeGrantView { monotonic_clock: v.monotonic_clock, ..d8 };
        assert(message::reaches::<Self>(p9, d9, limit)) by {
            assert(f9.len() == 1 || d8 =~= d9);
            message::lemma_reaches_field::<Self>(p8, f9, d8, d9, limit);
        }
        let d10 = WasiRuntimeGrantView { random: v.random, ..d9 };
        assert(message::reaches::<Self>(p10, d10, limit)) by {
            message::lemma_int32_round_trip(v.random);
            assert(f10.len() == 1 || d9 =~= d10);
            message::lemma_reaches_field::<Self>(p9, f10, d9, d10, limit);
        }
        assert(d10 =~= v);
        message::lemma_fitting_is_writable(all);
    }

    fn empty() -> Self {
        let m = WasiRuntimeGrant {
            preopens: Vec::new(),
            network: false,
            env_names: Vec::new(),
            args: Vec::new(),
            stdin: 0,
            stdout: 0,
            stderr: 0,
            wall_clock: false,
            monotonic_clock: false,
            random: 0,
        };
        assert(m@ =~= Self::default_view());
        m
    }

    fn fields(&self) -> Vec<Field> {
        let mut out: Vec<Field> = Vec::new();
        message::push_messages(&mut out, 1, &self.preopens);
        message::push_bool(&mut out, 2, self.network);
        message::push_texts(&mut out, 3, &self.env_names);
        message::push_texts(&mut out, 4, &self.args);
        message::push_int32(&mut out, 5, self.stdin);
        message::push_int32(&mut out, 6, self.stdout);
        message::push_int32(&mut out, 7, self.stderr);
        message::push_bool(&mut out, 8, self.wall_clock);
        message::push_bool(&mut out, 9, self.monotonic_clock);
        message::push_int32(&mut out, 10, self.random);
        assert(order::views(out@) =~= Self::fields_of(self@));
        out
    }

    fn merge(&mut self, field: &Field, limit: u32) -> Result<(), WireError> {
        if field.tag == 1 {
            match message::read_message(None, &field.value, limit) {
                None => return Err(WireError),
                Some(item) => self.preopens.push(item),
            }
        } else if field.tag == 2 {
            match message::read_bool(&field.value) {
                None => return Err(WireError),
                Some(network) => self.network = network,
            }
        } else if field.tag == 3 {
            match message::read_text(&field.value) {
                None => return Err(WireError),
                Some(item) => self.env_names.push(item),
            }
        } else if field.tag == 4 {
            match message::read_text(&field.value) {
                None => return Err(WireError),
                Some(item) => self.args.push(item),
            }
        } else if field.tag == 5 {
            match message::read_int32(&field.value) {
                None => return Err(WireError),
                Some(stdin) => self.stdin = stdin,
            }
        } else if field.tag == 6 {
            match message::read_int32(&field.value) {
                None => return Err(WireError),
                Some(stdout) => self.stdout = stdout,
            }
        } else if field.tag == 7 {
            match message::read_int32(&field.value) {
                None => return Err(WireError),
                Some(stderr) => self.stderr = stderr,
            }
        } else if field.tag == 8 {
            match message::read_bool(&field.value) {
                None => return Err(WireError),
                Some(wall_clock) => self.wall_clock = wall_clock,
            }
        } else if field.tag == 9 {
            match message::read_bool(&field.value) {
                None => return Err(WireError),
                Some(monotonic_clock) => self.monotonic_clock = monotonic_clock,
            }
        } else if field.tag == 10 {
            match message::read_int32(&field.value) {
                None => return Err(WireError),
                Some(random) => self.random = random,
            }
        }
        proof {
            if let Some(v) = Self::merge_field(old(self)@, field@, limit as nat) {
                assert(order::views(self.preopens@) =~= v.preopens);
                assert(order::views(self.env_names@) =~= v.env_names);
                assert(order::views(self.args@) =~= v.args);
            }
        }
        Ok(())
    }
}

/// What an attested composition is and what it can do.
#[derive(Debug, Clone)]
pub struct WasmCapabilityClaim {
    pub schema_version: String,
    pub application_commitment: Vec<u8>,
    pub runtime_info: Option<WasmRuntimeInfo>,
    pub graph: Option<CompositionGraph>,
    pub components: Vec<ComponentClaim>,
    pub granted_capabilities: Vec<GrantedWasiCapability>,
    pub runtime_properties: Option<RuntimeProperties>,
    pub wasi_runtime_grant: Option<WasiRuntimeGrant>,
}

/// The mathematical counterpart of [`WasmCapabilityClaim`].
#[verifier::ext_equal]
pub struct WasmCapabilityClaimView {
    pub schema_version: Seq<char>,
    pub application_commitment: Seq<u8>,
    pub runtime_info: Option<WasmRuntimeInfoView>,
    pub graph: Option<CompositionGraphView>,
    pub components: Seq<ComponentClaimView>,
    pub granted_capabilities: Seq<GrantedWasiCapabilityView>,
    pub runtime_properties: Option<RuntimePropertiesView>,
    pub wasi_runtime_grant: Option<WasiRuntimeGrantView>,
}

impl View for WasmCapabilityClaim {
    type V = WasmCapabilityClaimView;

    open spec fn view(&self) -> WasmCapabilityClaimView {
        WasmCapabilityClaimView {
            schema_version: self.schema_version@,
            application_commitment: self.application_commitment@,
            runtime_info: message::optional(self.runtime_info),
            graph: message::optional(self.graph),
            components: order::views(self.components@),
            granted_capabilities: order::views(self.granted_capabilities@),
            runtime_properties: message::optional(self.runtime_properties),
            wasi_runtime_grant: message::optional(self.wasi_runtime_grant),
        }
    }
}

impl Schema for WasmCapabilityClaim {
    open spec fn default_view() -> WasmCapabilityClaimView {
        WasmCapabilityClaimView {
            schema_version: Seq::empty(),
            application_commitment: Seq::empty(),
            runtime_info: None,
            graph: None,
            components: Seq::empty(),
            granted_capabilities: Seq::empty(),
            runtime_properties: None,
            wasi_runtime_grant: None,
        }
    }

    open spec fn fields_of(v: WasmCapabilityClaimView) -> Seq<wire::FieldView> {
        message::text_field(1, v.schema_version)
            + message::bytes_field(2, v.application_commitment)
            + message::optional_field::<WasmRuntimeInfo>(3, v.runtime_info)
            + message::optional_field::<CompositionGraph>(4, v.graph)
            + message::repeated_field(5, message::encodings::<ComponentClaim>(v.components))
            + message::repeated_field(6, message::encodings::<GrantedWasiCapability>(v.granted_capabilities))
            + message::optional_field::<RuntimeProperties>(7, v.runtime_properties)
            + message::optional_field::<WasiRuntimeGrant>(8, v.wasi_runtime_grant)
    }

    open spec fn merge_field(v: WasmCapabilityClaimView, field: wire::FieldView, limit: nat) -> Option<WasmCapabilityClaimView> {
        if field.tag == 1 {
            match message::as_text(field.value) {
                None => None,
                Some(schema_version) => Some(WasmCapabilityClaimView { schema_version, ..v }),
            }
        } else if field.tag == 2 {
            match message::as_bytes(field.value) {
                None => None,
                Some(application_commitment) => Some(WasmCapabilityClaimView { application_commitment, ..v }),
            }
        } else if field.tag == 3 {
            match message::as_message::<WasmRuntimeInfo>(v.runtime_info, field.value, limit) {
                None => None,
                Some(runtime_info) => Some(WasmCapabilityClaimView { runtime_info: Some(runtime_info), ..v }),
            }
        } else if field.tag == 4 {
            match message::as_message::<CompositionGraph>(v.graph, field.value, limit) {
                None => None,
                Some(graph) => Some(WasmCapabilityClaimView { graph: Some(graph), ..v }),
            }
        } else if field.tag == 5 {
            match message::as_message::<ComponentClaim>(None, field.value, limit) {
                None => None,
                Some(item) => Some(WasmCapabilityClaimView { components: v.components.push(item), ..v }),
            }
        } else if field.tag == 6 {
            match message::as_message::<GrantedWasiCapability>(None, field.value, limit) {
                None => None,
                Some(item) => Some(WasmCapabilityClaimView { granted_capabilities: v.granted_capabilities.push(item), ..v }),
            }
        } else if field.tag == 7 {
            match message::as_message::<RuntimeProperties>(v.runtime_properties, field.value, limit) {
                None => None,
                Some(runtime_properties) => Some(WasmCapabilityClaimView { runtime_properties: Some(runtime_properties), ..v }),
            }
        } else if field.tag == 8 {
            match message::as_message::<WasiRuntimeGrant>(v.wasi_runtime_grant, field.value, limit) {
                None => None,
                Some(wasi_runtime_grant) => Some(WasmCapabilityClaimView { wasi_runtime_grant: Some(wasi_runtime_grant), ..v }),
            }
        } else {
            Some(v)
        }
    }

    open spec fn depth() -> nat {
        3
    }
}

impl Message for WasmCapabilityClaim {
    #[verifier::rlimit(20)]
    proof fn merge_round_trip(v: WasmCapabilityClaimView, limit: nat) {
        let all = Self::fields_of(v);
        let d0 = Self::default_view();
        let f1 = message::text_field(1, v.schema_version);
        let f2 = message::bytes_field(2, v.application_commitment);
        let f3 = message::optional_field::<WasmRuntimeInfo>(3, v.runtime_info);
        let f4 = message::optional_field::<CompositionGraph>(4, v.graph);
        let f5 = message::repeated_field(5, message::encodings::<ComponentClaim>(v.components));
        let f6 = message::repeated_field(6, message::encodings::<GrantedWasiCapability>(v.granted_capabilities));
        let f7 = message::optional_field::<RuntimeProperties>(7, v.runtime_properties);
        let f8 = message::optional_field::<WasiRuntimeGrant>(8, v.wasi_runtime_grant);
        let p1 = f1;
        let p2 = p1 + f2;
        let p3 = p2 + f3;
        let p4 = p3 + f4;
        let p5 = p4 + f5;
        let p6 = p5 + f6;
        let p7 = p6 + f7;
        let p8 = p7 + f8;
        assert(wire::fields_bytes(f3).len() <= u64::MAX) by {
            message::lemma_parts_fit(p7, f8);
            message::lemma_parts_fit(p6, f7);
            message::lemma_parts_fit(p5, f6);
            message::lemma_parts_fit(p4, f5);
            message::lemma_parts_fit(p3, f4);
            message::lemma_parts_fit(p2, f3);
        }
        assert(wire::fields_bytes(f4).len() <= u64::MAX) by {
            message::lemma_parts_fit(p7, f8);
            message::lemma_parts_fit(p6, f7);
            message::lemma_parts_fit(p5, f6);
            message::lemma_parts_fit(p4, f5);
            message::lemma_parts_fit(p3, f4);
        }
        assert(wire::fields_bytes(f5).len() <= u64::MAX) by {
            message::lemma_parts_fit(p7, f8);
            message::lemma_parts_fit(p6, f7);
            message::lemma_parts_fit(p5, f6);
            message::lemma_parts_fit(p4, f5);
        }
        assert(wire::fields_bytes(f6).len() <= u64::MAX) by {
            message::lemma_parts_fit(p7, f8);
            message::lemma_parts_fit(p6, f7);
            message::lemma_parts_fit(p5, f6);
        }
        assert(wire::fields_bytes(f7).len() <= u64::MAX) by {
            message::lemma_parts_fit(p7, f8);
            message::lemma_parts_fit(p6, f7);
        }
        assert(wire::fields_bytes(f8).len() <= u64::MAX) by {
            message::lemma_parts_fit(p7, f8);
        }
        message::lemma_reaches_default::<Self>(limit);
        assert(Seq::empty() + f1 =~= p1);
        let d1 = WasmCapabilityClaimView { schema_version: v.schema_version, ..d0 };
        assert(message::reaches::<Self>(p1, d1, limit)) by {
            message::lemma_text_round_trip(v.schema_version);
            assert(f1.len() == 1 || d0 =~= d1);
            message::lemma_reaches_field::<Self>(Seq::empty(), f1, d0, d1, limit);
        }
        let d2 = WasmCapabilityClaimView { application_commitment: v.application_commitment, ..d1 };
        assert(message::reaches::<Self>(p2, d2, limit)) by {
            assert(f2.len() == 1 || d1 =~= d2);
            message::lemma_reaches_field::<Self>(p1, f2, d1, d2, limit);
        }
        let d3 = WasmCapabilityClaimView { runtime_info: v.runtime_info, ..d2 };
        assert(message::reaches::<Self>(p3, d3, limit)) by {
            if let Some(m) = v.runtime_info {
                message::lemma_payload_fits(f3, 0);
                message::lemma_message_round_trip::<WasmRuntimeInfo>(m, limit);
            }
            assert(f3.len() == 1 || d2 =~= d3);
            message::lemma_reaches_field::<Self>(p2, f3, d2, d3, limit);
        }
        let d4 = WasmCapabilityClaimView { graph: v.graph, ..d3 };
        assert(message::reaches::<Self>(p4, d4, limit)) by {
            if let Some(m) = v.graph {
                message::lemma_payload_fits(f4, 0);
                message::lemma_message_round_trip::<CompositionGraph>(m, limit);
            }
            assert(f4.len() == 1 || d3 =~= d4);
            message::lemma_reaches_field::<Self>(p3, f4, d3, d4, limit);
        }
        let d5 = WasmCapabilityClaimView { components: v.components, ..d4 };
        assert(message::reaches::<Self>(p5, d5, limit)) by {
            let steps = |k: int| WasmCapabilityClaimView { components: v.components.take(k), ..d4 };
            assert forall|k: int| 0 <= k < f5.len() implies Self::merge_field(
                steps(k),
                #[trigger] f5[k],
                limit,
            ) == Some(steps(k + 1)) by {
                message::lemma_payload_fits(f5, k);
                message::lemma_message_round_trip::<ComponentClaim>(v.components[k], limit);
                assert(v.components.take(k).push(v.components[k]) =~= v.components.take(k + 1));
            }
            assert(steps(0) =~= d4);
            assert(steps(f5.len() as int) =~= d5);
            message::lemma_reaches_run::<Self>(p4, f5, steps, limit);
        }
        let d6 = WasmCapabilityClaimView { granted_capabilities: v.granted_capabilities, ..d5 };
        assert(message::reaches::<Self>(p6, d6, limit)) by {
            let steps = |k: int| WasmCapabilityClaimView { granted_capabilities: v.granted_capabilities.take(k), ..d5 };
            assert forall|k: int| 0 <= k < f6.len() implies Self::merge_field(
                steps(k),
                #[trigger] f6[k],
                limit,
            ) == Some(steps(k + 1)) by {
                message::lemma_payload_fits(f6, k);
                message::lemma_message_round_trip::<GrantedWasiCapability>(v.granted_capabilities[k], limit);
                assert(v.granted_capabilities.take(k).push(v.granted_capabilities[k]) =~= v.granted_capabilities.take(k + 1));
            }
            assert(steps(0) =~= d5);
            assert(steps(f6.len() as int) =~= d6);
            message::lemma_reaches_run::<Self>(p5, f6, steps, limit);
        }
        let d7 = WasmCapabilityClaimView { runtime_properties: v.runtime_properties, ..d6 };
        assert(message::reaches::<Self>(p7, d7, limit)) by {
            if let Some(m) = v.runtime_properties {
                message::lemma_payload_fits(f7, 0);
                message::lemma_message_round_trip::<RuntimeProperties>(m, limit);
            }
            assert(f7.len() == 1 || d6 =~= d7);
            message::lemma_reaches_field::<Self>(p6, f7, d6, d7, limit);
        }
        let d8 = WasmCapabilityClaimView { wasi_runtime_grant: v.wasi_runtime_grant, ..d7 };
        assert(message::reaches::<Self>(p8, d8, limit)) by {
            if let Some(m) = v.wasi_runtime_grant {
                message::lemma_payload_fits(f8, 0);
                message::lemma_message_round_trip::<WasiRuntimeGrant>(m, limit);
            }
            assert(f8.len() == 1 || d7 =~= d8);
            message::lemma_reaches_field::<Self>(p7, f8, d7, d8, limit);
        }
        assert(d8 =~= v);
        message::lemma_fitting_is_writable(all);
    }

    fn empty() -> Self {
        let m = WasmCapabilityClaim {
            schema_version: String::new(),
            application_commitment: Vec::new(),
            runtime_info: None,
            graph: None,
            components: Vec::new(),
            granted_capabilities: Vec::new(),
            runtime_properties: None,
            wasi_runtime_grant: None,
        };
        assert(m@ =~= Self::default_view());
        m
    }

    fn fields(&self) -> Vec<Field> {
        let mut out: Vec<Field> = Vec::new();
        message::push_text(&mut out, 1, &self.schema_version);
        message::push_bytes(&mut out, 2, &self.application_commitment);
        message::push_optional(&mut out, 3, &self.runtime_info);
        message::push_optional(&mut out, 4, &self.graph);
        message::push_messages(&mut out, 5, &self.components);
        message::push_messages(&mut out, 6, &self.granted_capabilities);
        message::push_optional(&mut out, 7, &self.runtime_properties);
        message::push_optional(&mut out, 8, &self.wasi_runtime_grant);
        assert(order::views(out@) =~= Self::fields_of(self@));
        out
    }

    fn merge(&mut self, field: &Field, limit: u32) -> Result<(), WireError> {
        if field.tag == 1 {
            match message::read_text(&field.value) {
                None => return Err(WireError),
                Some(schema_version) => self.schema_version = schema_version,
            }
        } else if field.tag == 2 {
            match message::read_bytes(&field.value) {
                None => return Err(WireError),
                Some(application_commitment) => self.application_commitment = application_commitment,
            }
        } else if field.tag == 3 {
            let current = self.runtime_info.take();
            match message::read_message(current, &field.value, limit) {
                None => return Err(WireError),
                Some(runtime_info) => self.runtime_info = Some(runtime_info),
            }
        } else if field.tag == 4 {
            let current = self.graph.take();
            match message::read_message(current, &field.value, limit) {
                None => return Err(WireError),
                Some(graph) => self.graph = Some(graph),
            }
        } else if field.tag == 5 {
            match message::read_message(None, &field.value, limit) {
                None => return Err(WireError),
                Some(item) => self.components.push(item),
            }
        } else if field.tag == 6 {
            match message::read_message(None, &field.value, limit) {
                None => return Err(WireError),
                Some(item) => self.granted_capabilities.push(item),
            }
        } else if field.tag == 7 {
            let current = self.runtime_properties.take();
            match message::read_message(current, &field.value, limit) {
                None => return Err(WireError),
                Some(runtime_properties) => self.runtime_properties = Some(runtime_properties),
            }
        } else if field.tag == 8 {
            let current = self.wasi_runtime_grant.take();
            match message::read_message(current, &field.value, limit) {
                None => return Err(WireError),
                Some(wasi_runtime_grant) => self.wasi_runtime_grant = Some(wasi_runtime_grant),
            }
        }
        proof {
            if let Some(v) = Self::merge_field(old(self)@, field@, limit as nat) {
                assert(order::views(self.components@) =~= v.components);
                assert(order::views(self.granted_capabilities@) =~= v.granted_capabilities);
            }
        }
        Ok(())
    }
}

} // verus!
