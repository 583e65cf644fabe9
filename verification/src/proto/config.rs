//! The workload configuration messages.

use crate::message;
use crate::message::{Message, Schema};
use crate::order;
use crate::wire;
use crate::wire::{Field, WireError};
use vstd::prelude::*;

verus! {

/// One component of a workload: its logical name, its role, and the path of its
/// binary in the bundle.
#[derive(Debug, Clone)]
pub struct WasmComponentRef {
    pub id: String,
    pub role: String,
    pub path: String,
}

/// The mathematical counterpart of [`WasmComponentRef`].
#[verifier::ext_equal]
pub struct WasmComponentRefView {
    pub id: Seq<char>,
    pub role: Seq<char>,
    pub path: Seq<char>,
}

impl View for WasmComponentRef {
    type V = WasmComponentRefView;

    open spec fn view(&self) -> WasmComponentRefView {
        WasmComponentRefView {
            id: self.id@,
            role: self.role@,
            path: self.path@,
        }
    }
}

impl Schema for WasmComponentRef {
    open spec fn default_view() -> WasmComponentRefView {
        WasmComponentRefView {
            id: Seq::empty(),
            role: Seq::empty(),
            path: Seq::empty(),
        }
    }

    open spec fn fields_of(v: WasmComponentRefView) -> Seq<wire::FieldView> {
        message::text_field(1, v.id)
            + message::text_field(2, v.role)
            + message::text_field(3, v.path)
    }

    open spec fn merge_field(v: WasmComponentRefView, field: wire::FieldView, limit: nat) -> Option<WasmComponentRefView> {
        if field.tag == 1 {
            match message::as_text(field.value) {
                None => None,
                Some(id) => Some(WasmComponentRefView { id, ..v }),
            }
        } else if field.tag == 2 {
            match message::as_text(field.value) {
                None => None,
                Some(role) => Some(WasmComponentRefView { role, ..v }),
            }
        } else if field.tag == 3 {
            match message::as_text(field.value) {
                None => None,
                Some(path) => Some(WasmComponentRefView { path, ..v }),
            }
        } else {
            Some(v)
        }
    }

    open spec fn depth() -> nat {
        1
    }
}

impl Message for WasmComponentRef {
    proof fn merge_round_trip(v: WasmComponentRefView, limit: nat) {
        let all = Self::fields_of(v);
        let d0 = Self::default_view();
        let f1 = message::text_field(1, v.id);
        let f2 = message::text_field(2, v.role);
        let f3 = message::text_field(3, v.path);
        let p1 = f1;
        let p2 = p1 + f2;
        let p3 = p2 + f3;
        message::lemma_reaches_default::<Self>(limit);
        assert(Seq::empty() + f1 =~= p1);
        let d1 = WasmComponentRefView { id: v.id, ..d0 };
        assert(message::reaches::<Self>(p1, d1, limit)) by {
            message::lemma_text_round_trip(v.id);
            assert(f1.len() == 1 || d0 =~= d1);
            message::lemma_reaches_field::<Self>(Seq::empty(), f1, d0, d1, limit);
        }
        let d2 = WasmComponentRefView { role: v.role, ..d1 };
        assert(message::reaches::<Self>(p2, d2, limit)) by {
            message::lemma_text_round_trip(v.role);
            assert(f2.len() == 1 || d1 =~= d2);
            message::lemma_reaches_field::<Self>(p1, f2, d1, d2, limit);
        }
        let d3 = WasmComponentRefView { path: v.path, ..d2 };
        assert(message::reaches::<Self>(p3, d3, limit)) by {
            message::lemma_text_round_trip(v.path);
            assert(f3.len() == 1 || d2 =~= d3);
            message::lemma_reaches_field::<Self>(p2, f3, d2, d3, limit);
        }
        assert(d3 =~= v);
        message::lemma_fitting_is_writable(all);
    }

    fn empty() -> Self {
        WasmComponentRef {
            id: String::new(),
            role: String::new(),
            path: String::new(),
        }
    }

    fn fields(&self) -> Vec<Field> {
        let mut out: Vec<Field> = Vec::new();
        message::push_text(&mut out, 1, &self.id);
        message::push_text(&mut out, 2, &self.role);
        message::push_text(&mut out, 3, &self.path);
        assert(order::views(out@) =~= Self::fields_of(self@));
        out
    }

    fn merge(&mut self, field: &Field, limit: u32) -> Result<(), WireError> {
        if field.tag == 1 {
            match message::read_text(&field.value) {
                None => return Err(WireError),
                Some(id) => self.id = id,
            }
        } else if field.tag == 2 {
            match message::read_text(&field.value) {
                None => return Err(WireError),
                Some(role) => self.role = role,
            }
        } else if field.tag == 3 {
            match message::read_text(&field.value) {
                None => return Err(WireError),
                Some(path) => self.path = path,
            }
        }
        Ok(())
    }
}

/// Host-mediated wiring: component `to` imports `interface` from component `from`.
/// An empty name is the external endpoint.
#[derive(Debug, Clone)]
pub struct WasmCompositionEdge {
    pub from: String,
    pub to: String,
    pub interface: String,
}

/// The mathematical counterpart of [`WasmCompositionEdge`].
#[verifier::ext_equal]
pub struct WasmCompositionEdgeView {
    pub from: Seq<char>,
    pub to: Seq<char>,
    pub interface: Seq<char>,
}

impl View for WasmCompositionEdge {
    type V = WasmCompositionEdgeView;

    open spec fn view(&self) -> WasmCompositionEdgeView {
        WasmCompositionEdgeView {
            from: self.from@,
            to: self.to@,
            interface: self.interface@,
        }
    }
}

impl Schema for WasmCompositionEdge {
    open spec fn default_view() -> WasmCompositionEdgeView {
        WasmCompositionEdgeView {
            from: Seq::empty(),
            to: Seq::empty(),
            interface: Seq::empty(),
        }
    }

    open spec fn fields_of(v: WasmCompositionEdgeView) -> Seq<wire::FieldView> {
        message::text_field(1, v.from)
            + message::text_field(2, v.to)
            + message::text_field(3, v.interface)
    }

    open spec fn merge_field(v: WasmCompositionEdgeView, field: wire::FieldView, limit: nat) -> Option<WasmCompositionEdgeView> {
        if field.tag == 1 {
            match message::as_text(field.value) {
                None => None,
                Some(from) => Some(WasmCompositionEdgeView { from, ..v }),
            }
        } else if field.tag == 2 {
            match message::as_text(field.value) {
                None => None,
                Some(to) => Some(WasmCompositionEdgeView { to, ..v }),
            }
        } else if field.tag == 3 {
            match message::as_text(field.value) {
                None => None,
                Some(interface) => Some(WasmCompositionEdgeView { interface, ..v }),
            }
        } else {
            Some(v)
        }
    }

    open spec fn depth() -> nat {
        1
    }
}

impl Message for WasmCompositionEdge {
    proof fn merge_round_trip(v: WasmCompositionEdgeView, limit: nat) {
        let all = Self::fields_of(v);
        let d0 = Self::default_view();
        let f1 = message::text_field(1, v.from);
        let f2 = message::text_field(2, v.to);
        let f3 = message::text_field(3, v.interface);
        let p1 = f1;
        let p2 = p1 + f2;
        let p3 = p2 + f3;
        message::lemma_reaches_default::<Self>(limit);
        assert(Seq::empty() + f1 =~= p1);
        let d1 = WasmCompositionEdgeView { from: v.from, ..d0 };
        assert(message::reaches::<Self>(p1, d1, limit)) by {
            message::lemma_text_round_trip(v.from);
            assert(f1.len() == 1 || d0 =~= d1);
            message::lemma_reaches_field::<Self>(Seq::empty(), f1, d0, d1, limit);
        }
        let d2 = WasmCompositionEdgeView { to: v.to, ..d1 };
        assert(message::reaches::<Self>(p2, d2, limit)) by {
            message::lemma_text_round_trip(v.to);
            assert(f2.len() == 1 || d1 =~= d2);
            message::lemma_reaches_field::<Self>(p1, f2, d1, d2, limit);
        }
        let d3 = WasmCompositionEdgeView { interface: v.interface, ..d2 };
        assert(message::reaches::<Self>(p3, d3, limit)) by {
            message::lemma_text_round_trip(v.interface);
            assert(f3.len() == 1 || d2 =~= d3);
            message::lemma_reaches_field::<Self>(p2, f3, d2, d3, limit);
        }
        assert(d3 =~= v);
        message::lemma_fitting_is_writable(all);
    }

    fn empty() -> Self {
        WasmCompositionEdge {
            from: String::new(),
            to: String::new(),
            interface: String::new(),
        }
    }

    fn fields(&self) -> Vec<Field> {
        let mut out: Vec<Field> = Vec::new();
        message::push_text(&mut out, 1, &self.from);
        message::push_text(&mut out, 2, &self.to);
        message::push_text(&mut out, 3, &self.interface);
        assert(order::views(out@) =~= Self::fields_of(self@));
        out
    }

    fn merge(&mut self, field: &Field, limit: u32) -> Result<(), WireError> {
        if field.tag == 1 {
            match message::read_text(&field.value) {
                None => return Err(WireError),
                Some(from) => self.from = from,
            }
        } else if field.tag == 2 {
            match message::read_text(&field.value) {
                None => return Err(WireError),
                Some(to) => self.to = to,
            }
        } else if field.tag == 3 {
            match message::read_text(&field.value) {
                None => return Err(WireError),
                Some(interface) => self.interface = interface,
            }
        }
        Ok(())
    }
}

/// A composition of components and the function by which it is entered.
#[derive(Debug, Clone)]
pub struct WasmWorkloadConfig {
    pub components: Vec<WasmComponentRef>,
    pub edges: Vec<WasmCompositionEdge>,
    pub entry_component: String,
    pub entry_interface: String,
    pub entry_function: String,
}

/// The mathematical counterpart of [`WasmWorkloadConfig`].
#[verifier::ext_equal]
pub struct WasmWorkloadConfigView {
    pub components: Seq<WasmComponentRefView>,
    pub edges: Seq<WasmCompositionEdgeView>,
    pub entry_component: Seq<char>,
    pub entry_interface: Seq<char>,
    pub entry_function: Seq<char>,
}

impl View for WasmWorkloadConfig {
    type V = WasmWorkloadConfigView;

    open spec fn view(&self) -> WasmWorkloadConfigView {
        WasmWorkloadConfigView {
            components: order::views(self.components@),
            edges: order::views(self.edges@),
            entry_component: self.entry_component@,
            entry_interface: self.entry_interface@,
            entry_function: self.entry_function@,
        }
    }
}

impl Schema for WasmWorkloadConfig {
    open spec fn default_view() -> WasmWorkloadConfigView {
        WasmWorkloadConfigView {
            components: Seq::empty(),
            edges: Seq::empty(),
            entry_component: Seq::empty(),
            entry_interface: Seq::empty(),
            entry_function: Seq::empty(),
        }
    }

    open spec fn fields_of(v: WasmWorkloadConfigView) -> Seq<wire::FieldView> {
        message::repeated_field(1, message::encodings::<WasmComponentRef>(v.components))
            + message::repeated_field(2, message::encodings::<WasmCompositionEdge>(v.edges))
            + message::text_field(3, v.entry_component)
            + message::text_field(4, v.entry_interface)
            + message::text_field(5, v.entry_function)
    }

    open spec fn merge_field(v: WasmWorkloadConfigView, field: wire::FieldView, limit: nat) -> Option<WasmWorkloadConfigView> {
        if field.tag == 1 {
            match message::as_message::<WasmComponentRef>(None, field.value, limit) {
                None => None,
                Some(item) => Some(WasmWorkloadConfigView { components: v.components.push(item), ..v }),
            }
        } else if field.tag == 2 {
            match message::as_message::<WasmCompositionEdge>(None, field.value, limit) {
                None => None,
                Some(item) => Some(WasmWorkloadConfigView { edges: v.edges.push(item), ..v }),
            }
        } else if field.tag == 3 {
            match message::as_text(field.value) {
                None => None,
                Some(entry_component) => Some(WasmWorkloadConfigView { entry_component, ..v }),
            }
        } else if field.tag == 4 {
            match message::as_text(field.value) {
                None => None,
                Some(entry_interface) => Some(WasmWorkloadConfigView { entry_interface, ..v }),
            }
        } else if field.tag == 5 {
            match message::as_text(field.value) {
                None => None,
                Some(entry_function) => Some(WasmWorkloadConfigView { entry_function, ..v }),
            }
        } else {
            Some(v)
        }
    }

    open spec fn depth() -> nat {
        2
    }
}

impl Message for WasmWorkloadConfig {
    proof fn merge_round_trip(v: WasmWorkloadConfigView, limit: nat) {
        let all = Self::fields_of(v);
        let d0 = Self::default_view();
        let f1 = message::repeated_field(1, message::encodings::<WasmComponentRef>(v.components));
        let f2 = message::repeated_field(2, message::encodings::<WasmCompositionEdge>(v.edges));
        let f3 = message::text_field(3, v.entry_component);
        let f4 = message::text_field(4, v.entry_interface);
        let f5 = message::text_field(5, v.entry_function);
        let p1 = f1;
        let p2 = p1 + f2;
        let p3 = p2 + f3;
        let p4 = p3 + f4;
        let p5 = p4 + f5;
        assert(wire::fields_bytes(f1).len() <= u64::MAX) by {
            message::lemma_parts_fit(p4, f5);
            message::lemma_parts_fit(p3, f4);
            message::lemma_parts_fit(p2, f3);
            message::lemma_parts_fit(p1, f2);
        }
        assert(wire::fields_bytes(f2).len() <= u64::MAX) by {
            message::lemma_parts_fit(p4, f5);
            message::lemma_parts_fit(p3, f4);
            message::lemma_parts_fit(p2, f3);
            message::lemma_parts_fit(p1, f2);
        }
        message::lemma_reaches_default::<Self>(limit);
        assert(Seq::empty() + f1 =~= p1);
        let d1 = WasmWorkloadConfigView { components: v.components, ..d0 };
        assert(message::reaches::<Self>(p1, d1, limit)) by {
            let steps = |k: int| WasmWorkloadConfigView { components: v.components.take(k), ..d0 };
            assert forall|k: int| 0 <= k < f1.len() implies Self::merge_field(
                steps(k),
                #[trigger] f1[k],
                limit,
            ) == Some(steps(k + 1)) by {
                message::lemma_payload_fits(f1, k);
                message::lemma_message_round_trip::<WasmComponentRef>(v.components[k], limit);
                assert(v.components.take(k).push(v.components[k]) =~= v.components.take(k + 1));
            }
            assert(steps(0) =~= d0);
            assert(steps(f1.len() as int) =~= d1);
            message::lemma_reaches_run::<Self>(Seq::empty(), f1, steps, limit);
        }
        let d2 = WasmWorkloadConfigView { edges: v.edges, ..d1 };
        assert(message::reaches::<Self>(p2, d2, limit)) by {
            let steps = |k: int| WasmWorkloadConfigView { edges: v.edges.take(k), ..d1 };
            assert forall|k: int| 0 <= k < f2.len() implies Self::merge_field(
                steps(k),
                #[trigger] f2[k],
                limit,
            ) == Some(steps(k + 1)) by {
                message::lemma_payload_fits(f2, k);
                message::lemma_message_round_trip::<WasmCompositionEdge>(v.edges[k], limit);
                assert(v.edges.take(k).push(v.edges[k]) =~= v.edges.take(k + 1));
            }
            assert(steps(0) =~= d1);
            assert(steps(f2.len() as int) =~= d2);
            message::lemma_reaches_run::<Self>(p1, f2, steps, limit);
        }
        let d3 = WasmWorkloadConfigView { entry_component: v.entry_component, ..d2 };
        assert(message::reaches::<Self>(p3, d3, limit)) by {
            message::lemma_text_round_trip(v.entry_component);
            assert(f3.len() == 1 || d2 =~= d3);
            message::lemma_reaches_field::<Self>(p2, f3, d2, d3, limit);
        }
        let d4 = WasmWorkloadConfigView { entry_interface: v.entry_interface, ..d3 };
        assert(message::reaches::<Self>(p4, d4, limit)) by {
            message::lemma_text_round_trip(v.entry_interface);
            assert(f4.len() == 1 || d3 =~= d4);
            message::lemma_reaches_field::<Self>(p3, f4, d3, d4, limit);
        }
        let d5 = WasmWorkloadConfigView { entry_function: v.entry_function, ..d4 };
        assert(message::reaches::<Self>(p5, d5, limit)) by {
            message::lemma_text_round_trip(v.entry_function);
            assert(f5.len() == 1 || d4 =~= d5);
            message::lemma_reaches_field::<Self>(p4, f5, d4, d5, limit);
        }
        assert(d5 =~= v);
        message::lemma_fitting_is_writable(all);
    }

    fn empty() -> Self {
        let m = WasmWorkloadConfig {
            components: Vec::new(),
            edges: Vec::new(),
            entry_component: String::new(),
            entry_interface: String::new(),
            entry_function: String::new(),
        };
        assert(m@ =~= Self::default_view());
        m
    }

    fn fields(&self) -> Vec<Field> {
        let mut out: Vec<Field> = Vec::new();
        message::push_messages(&mut out, 1, &self.components);
        message::push_messages(&mut out, 2, &self.edges);
        message::push_text(&mut out, 3, &self.entry_component);
        message::push_text(&mut out, 4, &self.entry_interface);
        message::push_text(&mut out, 5, &self.entry_function);
        assert(order::views(out@) =~= Self::fields_of(self@));
        out
    }

    fn merge(&mut self, field: &Field, limit: u32) -> Result<(), WireError> {
        if field.tag == 1 {
            match message::read_message(None, &field.value, limit) {
                None => return Err(WireError),
                Some(item) => self.components.push(item),
            }
        } else if field.tag == 2 {
            match message::read_message(None, &field.value, limit) {
                None => return Err(WireError),
                Some(item) => self.edges.push(item),
            }
        } else if field.tag == 3 {
            match message::read_text(&field.value) {
                None => return Err(WireError),
                Some(entry_component) => self.entry_component = entry_component,
            }
        } else if field.tag == 4 {
            match message::read_text(&field.value) {
                None => return Err(WireError),
                Some(entry_interface) => self.entry_interface = entry_interface,
            }
        } else if field.tag == 5 {
            match message::read_text(&field.value) {
                None => return Err(WireError),
                Some(entry_function) => self.entry_function = entry_function,
            }
        }
        proof {
            if let Some(v) = Self::merge_field(old(self)@, field@, limit as nat) {
                assert(order::views(self.components@) =~= v.components);
                assert(order::views(self.edges@) =~= v.edges);
            }
        }
        Ok(())
    }
}

/// The envelope that selects how a workload is run.
#[derive(Debug, Clone)]
pub struct OrchestratorWorkloadConfig {
    pub workload_kind: i32,
    pub wasm: Option<WasmWorkloadConfig>,
}

/// The mathematical counterpart of [`OrchestratorWorkloadConfig`].
#[verifier::ext_equal]
pub struct OrchestratorWorkloadConfigView {
    pub workload_kind: i32,
    pub wasm: Option<WasmWorkloadConfigView>,
}

impl View for OrchestratorWorkloadConfig {
    type V = OrchestratorWorkloadConfigView;

    open spec fn view(&self) -> OrchestratorWorkloadConfigView {
        OrchestratorWorkloadConfigView {
            workload_kind: self.workload_kind,
            wasm: message::optional(self.wasm),
        }
    }
}

impl Schema for OrchestratorWorkloadConfig {
    open spec fn default_view() -> OrchestratorWorkloadConfigView {
        OrchestratorWorkloadConfigView {
            workload_kind: 0,
            wasm: None,
        }
    }

    open spec fn fields_of(v: OrchestratorWorkloadConfigView) -> Seq<wire::FieldView> {
        message::int32_field(1, v.workload_kind)
            + message::optional_field::<WasmWorkloadConfig>(2, v.wasm)
    }

    open spec fn merge_field(v: OrchestratorWorkloadConfigView, field: wire::FieldView, limit: nat) -> Option<OrchestratorWorkloadConfigView> {
        if field.tag == 1 {
            match message::as_int32(field.value) {
                None => None,
                Some(workload_kind) => Some(OrchestratorWorkloadConfigView { workload_kind, ..v }),
            }
        } else if field.tag == 2 {
            match message::as_message::<WasmWorkloadConfig>(v.wasm, field.value, limit) {
                None => None,
                Some(wasm) => Some(OrchestratorWorkloadConfigView { wasm: Some(wasm), ..v }),
            }
        } else {
            Some(v)
        }
    }

    open spec fn depth() -> nat {
        3
    }
}

impl Message for OrchestratorWorkloadConfig {
    proof fn merge_round_trip(v: OrchestratorWorkloadConfigView, limit: nat) {
        let all = Self::fields_of(v);
        let d0 = Self::default_view();
        let f1 = message::int32_field(1, v.workload_kind);
        let f2 = message::optional_field::<WasmWorkloadConfig>(2, v.wasm);
        let p1 = f1;
        let p2 = p1 + f2;
        assert(wire::fields_bytes(f2).len() <= u64::MAX) by {
            message::lemma_parts_fit(p1, f2);
        }
        message::lemma_reaches_default::<Self>(limit);
        assert(Seq::empty() + f1 =~= p1);
        let d1 = OrchestratorWorkloadConfigView { workload_kind: v.workload_kind, ..d0 };
        assert(message::reaches::<Self>(p1, d1, limit)) by {
            message::lemma_int32_round_trip(v.workload_kind);
            assert(f1.len() == 1 || d0 =~= d1);
            message::lemma_reaches_field::<Self>(Seq::empty(), f1, d0, d1, limit);
        }
        let d2 = OrchestratorWorkloadConfigView { wasm: v.wasm, ..d1 };
        assert(message::reaches::<Self>(p2, d2, limit)) by {
            if let Some(m) = v.wasm {
                message::lemma_payload_fits(f2, 0);
                message::lemma_message_round_trip::<WasmWorkloadConfig>(m, limit);
            }
            assert(f2.len() == 1 || d1 =~= d2);
            message::lemma_reaches_field::<Self>(p1, f2, d1, d2, limit);
        }
        assert(d2 =~= v);
        message::lemma_fitting_is_writable(all);
    }

    fn empty() -> Self {
        OrchestratorWorkloadConfig {
            workload_kind: 0,
            wasm: None,
        }
    }

    fn fields(&self) -> Vec<Field> {
        let mut out: Vec<Field> = Vec::new();
        message::push_int32(&mut out, 1, self.workload_kind);
        message::push_optional(&mut out, 2, &self.wasm);
        assert(order::views(out@) =~= Self::fields_of(self@));
        out
    }

    fn merge(&mut self, field: &Field, limit: u32) -> Result<(), WireError> {
        if field.tag == 1 {
            match message::read_int32(&field.value) {
                None => return Err(WireError),
                Some(workload_kind) => self.workload_kind = workload_kind,
            }
        } else if field.tag == 2 {
            let current = self.wasm.take();
            match message::read_message(current, &field.value, limit) {
                None => return Err(WireError),
                Some(wasm) => self.wasm = Some(wasm),
            }
        }
        Ok(())
    }
}

/// How a workload is run.
#[derive(Debug, Clone, Copy, PartialEq, Eq, Structural)]
pub enum WorkloadKind {
    Unspecified,
    Container,
    Wasm,
}

impl WorkloadKind {
    /// The kind's number on the wire.
    pub open spec fn spec_number(self) -> i32 {
        match self {
            WorkloadKind::Unspecified => 0,
            WorkloadKind::Container => 1,
            WorkloadKind::Wasm => 2,
        }
    }

    /// The kind's number on the wire.
    #[verifier::when_used_as_spec(spec_number)]
    pub fn number(self) -> (n: i32)
        ensures
            n == self.spec_number(),
    {
        match self {
            WorkloadKind::Unspecified => 0,
            WorkloadKind::Container => 1,
            WorkloadKind::Wasm => 2,
        }
    }
}

impl OrchestratorWorkloadConfig {
    /// The selected kind; a number that is no kind counts as unspecified.
    pub fn workload_kind(&self) -> (kind: WorkloadKind)
        ensures
            kind is Wasm <==> self@.workload_kind == WorkloadKind::Wasm.number(),
            kind is Container <==> self@.workload_kind == WorkloadKind::Container.number(),
    {
        if self.workload_kind == 1 {
            WorkloadKind::Container
        } else if self.workload_kind == 2 {
            WorkloadKind::Wasm
        } else {
            WorkloadKind::Unspecified
        }
    }
}

} // verus!
