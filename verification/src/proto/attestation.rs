//! The attestation event messages.

use crate::message;
use crate::message::{Message, Schema};
use crate::order;
use crate::wire;
use crate::wire::{Field, WireError};
use vstd::prelude::*;

verus! {

/// An encoded message together with the name of its type.
#[derive(Debug, Clone)]
pub struct Any {
    pub type_url: String,
    pub value: Vec<u8>,
}

/// The mathematical counterpart of [`Any`].
#[verifier::ext_equal]
pub struct AnyView {
    pub type_url: Seq<char>,
    pub value: Seq<u8>,
}

impl View for Any {
    type V = AnyView;

    open spec fn view(&self) -> AnyView {
        AnyView {
            type_url: self.type_url@,
            value: self.value@,
        }
    }
}

impl Schema for Any {
    open spec fn default_view() -> AnyView {
        AnyView {
            type_url: Seq::empty(),
            value: Seq::empty(),
        }
    }

    open spec fn fields_of(v: AnyView) -> Seq<wire::FieldView> {
        message::text_field(1, v.type_url)
            + message::bytes_field(2, v.value)
    }

    open spec fn merge_field(v: AnyView, field: wire::FieldView, limit: nat) -> Option<AnyView> {
        if field.tag == 1 {
            match message::as_text(field.value) {
                None => None,
                Some(type_url) => Some(AnyView { type_url, ..v }),
            }
        } else if field.tag == 2 {
            match message::as_bytes(field.value) {
                None => None,
                Some(value) => Some(AnyView { value, ..v }),
            }
        } else {
            Some(v)
        }
    }

    open spec fn depth() -> nat {
        1
    }
}

impl Message for Any {
    proof fn merge_round_trip(v: AnyView, limit: nat) {
        let all = Self::fields_of(v);
        let d0 = Self::default_view();
        let f1 = message::text_field(1, v.type_url);
        let f2 = message::bytes_field(2, v.value);
        let p1 = f1;
        let p2 = p1 + f2;
        message::lemma_reaches_default::<Self>(limit);
        assert(Seq::empty() + f1 =~= p1);
        let d1 = AnyView { type_url: v.type_url, ..d0 };
        assert(message::reaches::<Self>(p1, d1, limit)) by {
            message::lemma_text_round_trip(v.type_url);
            assert(f1.len() == 1 || d0 =~= d1);
            message::lemma_reaches_field::<Self>(Seq::empty(), f1, d0, d1, limit);
        }
        let d2 = AnyView { value: v.value, ..d1 };
        assert(message::reaches::<Self>(p2, d2, limit)) by {
            assert(f2.len() == 1 || d1 =~= d2);
            message::lemma_reaches_field::<Self>(p1, f2, d1, d2, limit);
        }
        assert(d2 =~= v);
        message::lemma_fitting_is_writable(all);
    }

    fn empty() -> Self {
        Any {
            type_url: String::new(),
            value: Vec::new(),
        }
    }

    fn fields(&self) -> Vec<Field> {
        let mut out: Vec<Field> = Vec::new();
        message::push_text(&mut out, 1, &self.type_url);
        message::push_bytes(&mut out, 2, &self.value);
        assert(order::views(out@) =~= Self::fields_of(self@));
        out
    }

    fn merge(&mut self, field: &Field, limit: u32) -> Result<(), WireError> {
        if field.tag == 1 {
            match message::read_text(&field.value) {
                None => return Err(WireError),
                Some(type_url) => self.type_url = type_url,
            }
        } else if field.tag == 2 {
            match message::read_bytes(&field.value) {
                None => return Err(WireError),
                Some(value) => self.value = value,
            }
        }
        Ok(())
    }
}

/// An entry of the event log.
#[derive(Debug, Clone)]
pub struct Event {
    pub tag: String,
    pub event: Option<Any>,
}

/// The mathematical counterpart of [`Event`].
#[verifier::ext_equal]
pub struct EventView {
    pub tag: Seq<char>,
    pub event: Option<AnyView>,
}

impl View for Event {
    type V = EventView;

    open spec fn view(&self) -> EventView {
        EventView {
            tag: self.tag@,
            event: message::optional(self.event),
        }
    }
}

impl Schema for Event {
    open spec fn default_view() -> EventView {
        EventView {
            tag: Seq::empty(),
            event: None,
        }
    }

    open spec fn fields_of(v: EventView) -> Seq<wire::FieldView> {
        message::text_field(1, v.tag)
            + message::optional_field::<Any>(2, v.event)
    }

    open spec fn merge_field(v: EventView, field: wire::FieldView, limit: nat) -> Option<EventView> {
        if field.tag == 1 {
            match message::as_text(field.value) {
                None => None,
                Some(tag) => Some(EventView { tag, ..v }),
            }
        } else if field.tag == 2 {
            match message::as_message::<Any>(v.event, field.value, limit) {
                None => None,
                Some(event) => Some(EventView { event: Some(event), ..v }),
            }
        } else {
            Some(v)
        }
    }

    open spec fn depth() -> nat {
        2
    }
}

impl Message for Event {
    proof fn merge_round_trip(v: EventView, limit: nat) {
        let all = Self::fields_of(v);
        let d0 = Self::default_view();
        let f1 = message::text_field(1, v.tag);
        let f2 = message::optional_field::<Any>(2, v.event);
        let p1 = f1;
        let p2 = p1 + f2;
        assert(wire::fields_bytes(f2).len() <= u64::MAX) by {
            message::lemma_parts_fit(p1, f2);
        }
        message::lemma_reaches_default::<Self>(limit);
        assert(Seq::empty() + f1 =~= p1);
        let d1 = EventView { tag: v.tag, ..d0 };
        assert(message::reaches::<Self>(p1, d1, limit)) by {
            message::lemma_text_round_trip(v.tag);
            assert(f1.len() == 1 || d0 =~= d1);
            message::lemma_reaches_field::<Self>(Seq::empty(), f1, d0, d1, limit);
        }
        let d2 = EventView { event: v.event, ..d1 };
        assert(message::reaches::<Self>(p2, d2, limit)) by {
            if let Some(m) = v.event {
                message::lemma_payload_fits(f2, 0);
                message::lemma_message_round_trip::<Any>(m, limit);
            }
            assert(f2.len() == 1 || d1 =~= d2);
            message::lemma_reaches_field::<Self>(p1, f2, d1, d2, limit);
        }
        assert(d2 =~= v);
        message::lemma_fitting_is_writable(all);
    }

    fn empty() -> Self {
        Event {
            tag: String::new(),
            event: None,
        }
    }

    fn fields(&self) -> Vec<Field> {
        let mut out: Vec<Field> = Vec::new();
        message::push_text(&mut out, 1, &self.tag);
        message::push_optional(&mut out, 2, &self.event);
        assert(order::views(out@) =~= Self::fields_of(self@));
        out
    }

    fn merge(&mut self, field: &Field, limit: u32) -> Result<(), WireError> {
        if field.tag == 1 {
            match message::read_text(&field.value) {
                None => return Err(WireError),
                Some(tag) => self.tag = tag,
            }
        } else if field.tag == 2 {
            let current = self.event.take();
            match message::read_message(current, &field.value, limit) {
                None => return Err(WireError),
                Some(event) => self.event = Some(event),
            }
        }
        Ok(())
    }
}

/// A measurement. Only its SHA2-256 is used.
#[derive(Debug, Clone)]
pub struct RawDigest {
    pub sha2_256: Vec<u8>,
}

/// The mathematical counterpart of [`RawDigest`].
#[verifier::ext_equal]
pub struct RawDigestView {
    pub sha2_256: Seq<u8>,
}

impl View for RawDigest {
    type V = RawDigestView;

    open spec fn view(&self) -> RawDigestView {
        RawDigestView {
            sha2_256: self.sha2_256@,
        }
    }
}

impl Schema for RawDigest {
    open spec fn default_view() -> RawDigestView {
        RawDigestView {
            sha2_256: Seq::empty(),
        }
    }

    open spec fn fields_of(v: RawDigestView) -> Seq<wire::FieldView> {
        message::bytes_field(3, v.sha2_256)
    }

    open spec fn merge_field(v: RawDigestView, field: wire::FieldView, limit: nat) -> Option<RawDigestView> {
        if field.tag == 3 {
            match message::as_bytes(field.value) {
                None => None,
                Some(sha2_256) => Some(RawDigestView { sha2_256 }),
            }
        } else {
            Some(v)
        }
    }

    open spec fn depth() -> nat {
        1
    }
}

impl Message for RawDigest {
    proof fn merge_round_trip(v: RawDigestView, limit: nat) {
        let all = Self::fields_of(v);
        let d0 = Self::default_view();
        let f1 = message::bytes_field(3, v.sha2_256);
        let p1 = f1;
        message::lemma_reaches_default::<Self>(limit);
        assert(Seq::empty() + f1 =~= p1);
        let d1 = RawDigestView { sha2_256: v.sha2_256 };
        assert(message::reaches::<Self>(p1, d1, limit)) by {
            assert(f1.len() == 1 || d0 =~= d1);
            message::lemma_reaches_field::<Self>(Seq::empty(), f1, d0, d1, limit);
        }
        assert(d1 =~= v);
        message::lemma_fitting_is_writable(all);
    }

    fn empty() -> Self {
        RawDigest {
            sha2_256: Vec::new(),
        }
    }

    fn fields(&self) -> Vec<Field> {
        let mut out: Vec<Field> = Vec::new();
        message::push_bytes(&mut out, 3, &self.sha2_256);
        assert(order::views(out@) =~= Self::fields_of(self@));
        out
    }

    fn merge(&mut self, field: &Field, limit: u32) -> Result<(), WireError> {
        if field.tag == 3 {
            match message::read_bytes(&field.value) {
                None => return Err(WireError),
                Some(sha2_256) => self.sha2_256 = sha2_256,
            }
        }
        Ok(())
    }
}

/// The measured system image.
#[derive(Debug, Clone)]
pub struct SystemLayerData {
    pub system_image: Option<RawDigest>,
}

/// The mathematical counterpart of [`SystemLayerData`].
#[verifier::ext_equal]
pub struct SystemLayerDataView {
    pub system_image: Option<RawDigestView>,
}

impl View for SystemLayerData {
    type V = SystemLayerDataView;

    open spec fn view(&self) -> SystemLayerDataView {
        SystemLayerDataView {
            system_image: message::optional(self.system_image),
        }
    }
}

impl Schema for SystemLayerData {
    open spec fn default_view() -> SystemLayerDataView {
        SystemLayerDataView {
            system_image: None,
        }
    }

    open spec fn fields_of(v: SystemLayerDataView) -> Seq<wire::FieldView> {
        message::optional_field::<RawDigest>(1, v.system_image)
    }

    open spec fn merge_field(v: SystemLayerDataView, field: wire::FieldView, limit: nat) -> Option<SystemLayerDataView> {
        if field.tag == 1 {
            match message::as_message::<RawDigest>(v.system_image, field.value, limit) {
                None => None,
                Some(system_image) => Some(SystemLayerDataView { system_image: Some(system_image) }),
            }
        } else {
            Some(v)
        }
    }

    open spec fn depth() -> nat {
        2
    }
}

impl Message for SystemLayerData {
    proof fn merge_round_trip(v: SystemLayerDataView, limit: nat) {
        let all = Self::fields_of(v);
        let d0 = Self::default_view();
        let f1 = message::optional_field::<RawDigest>(1, v.system_image);
        let p1 = f1;
        message::lemma_reaches_default::<Self>(limit);
        assert(Seq::empty() + f1 =~= p1);
        let d1 = SystemLayerDataView { system_image: v.system_image };
        assert(message::reaches::<Self>(p1, d1, limit)) by {
            if let Some(m) = v.system_image {
                message::lemma_payload_fits(f1, 0);
                message::lemma_message_round_trip::<RawDigest>(m, limit);
            }
            assert(f1.len() == 1 || d0 =~= d1);
            message::lemma_reaches_field::<Self>(Seq::empty(), f1, d0, d1, limit);
        }
        assert(d1 =~= v);
        message::lemma_fitting_is_writable(all);
    }

    fn empty() -> Self {
        SystemLayerData {
            system_image: None,
        }
    }

    fn fields(&self) -> Vec<Field> {
        let mut out: Vec<Field> = Vec::new();
        message::push_optional(&mut out, 1, &self.system_image);
        assert(order::views(out@) =~= Self::fields_of(self@));
        out
    }

    fn merge(&mut self, field: &Field, limit: u32) -> Result<(), WireError> {
        if field.tag == 1 {
            let current = self.system_image.take();
            match message::read_message(current, &field.value, limit) {
                None => return Err(WireError),
                Some(system_image) => self.system_image = Some(system_image),
            }
        }
        Ok(())
    }
}

/// A container workload: its measurements and its public keys.
#[derive(Debug, Clone)]
pub struct ContainerLayerData {
    pub bundle: Option<RawDigest>,
    pub config: Option<RawDigest>,
    pub hybrid_encryption_public_key: Vec<u8>,
    pub signing_public_key: Vec<u8>,
    pub session_binding_public_key: Vec<u8>,
}

/// The mathematical counterpart of [`ContainerLayerData`].
#[verifier::ext_equal]
pub struct ContainerLayerDataView {
    pub bundle: Option<RawDigestView>,
    pub config: Option<RawDigestView>,
    pub hybrid_encryption_public_key: Seq<u8>,
    pub signing_public_key: Seq<u8>,
    pub session_binding_public_key: Seq<u8>,
}

impl View for ContainerLayerData {
    type V = ContainerLayerDataView;

    open spec fn view(&self) -> ContainerLayerDataView {
        ContainerLayerDataView {
            bundle: message::optional(self.bundle),
            config: message::optional(self.config),
            hybrid_encryption_public_key: self.hybrid_encryption_public_key@,
            signing_public_key: self.signing_public_key@,
            session_binding_public_key: self.session_binding_public_key@,
        }
    }
}

impl Schema for ContainerLayerData {
    open spec fn default_view() -> ContainerLayerDataView {
        ContainerLayerDataView {
            bundle: None,
            config: None,
            hybrid_encryption_public_key: Seq::empty(),
            signing_public_key: Seq::empty(),
            session_binding_public_key: Seq::empty(),
        }
    }

    open spec fn fields_of(v: ContainerLayerDataView) -> Seq<wire::FieldView> {
        message::optional_field::<RawDigest>(1, v.bundle)
            + message::optional_field::<RawDigest>(2, v.config)
            + message::bytes_field(3, v.hybrid_encryption_public_key)
            + message::bytes_field(4, v.signing_public_key)
            + message::bytes_field(5, v.session_binding_public_key)
    }

    open spec fn merge_field(v: ContainerLayerDataView, field: wire::FieldView, limit: nat) -> Option<ContainerLayerDataView> {
        if field.tag == 1 {
            match message::as_message::<RawDigest>(v.bundle, field.value, limit) {
                None => None,
                Some(bundle) => Some(ContainerLayerDataView { bundle: Some(bundle), ..v }),
            }
        } else if field.tag == 2 {
            match message::as_message::<RawDigest>(v.config, field.value, limit) {
                None => None,
                Some(config) => Some(ContainerLayerDataView { config: Some(config), ..v }),
            }
        } else if field.tag == 3 {
            match message::as_bytes(field.value) {
                None => None,
                Some(hybrid_encryption_public_key) => Some(ContainerLayerDataView { hybrid_encryption_public_key, ..v }),
            }
        } else if field.tag == 4 {
            match message::as_bytes(field.value) {
                None => None,
                Some(signing_public_key) => Some(ContainerLayerDataView { signing_public_key, ..v }),
            }
        } else if field.tag == 5 {
            match message::as_bytes(field.value) {
                None => None,
                Some(session_binding_public_key) => Some(ContainerLayerDataView { session_binding_public_key, ..v }),
            }
        } else {
            Some(v)
        }
    }

    open spec fn depth() -> nat {
        2
    }
}

impl Message for ContainerLayerData {
    proof fn merge_round_trip(v: ContainerLayerDataView, limit: nat) {
        let all = Self::fields_of(v);
        let d0 = Self::default_view();
        let f1 = message::optional_field::<RawDigest>(1, v.bundle);
        let f2 = message::optional_field::<RawDigest>(2, v.config);
        let f3 = message::bytes_field(3, v.hybrid_encryption_public_key);
        let f4 = message::bytes_field(4, v.signing_public_key);
        let f5 = message::bytes_field(5, v.session_binding_public_key);
        let p1 = f1;
        let p2 = p1 + f2;
        let p3 = p2 + f3;
        let p4 = p3 + f4;
        let p5 = p4 + f5;
        assert(wire::fields_bytes(f1).len() <= u64::MAX) by {
            message::lemma_parts_fit(p4, f5);
            message::lemma_parts_fit(p3, f4);
            message::lemma_parts_fit(p2, f3);
            message::lemma_parts_fit(p1, f2);
        }
        assert(wire::fields_bytes(f2).len() <= u64::MAX) by {
            message::lemma_parts_fit(p4, f5);
            message::lemma_parts_fit(p3, f4);
            message::lemma_parts_fit(p2, f3);
            message::lemma_parts_fit(p1, f2);
        }
        message::lemma_reaches_default::<Self>(limit);
        assert(Seq::empty() + f1 =~= p1);
        let d1 = ContainerLayerDataView { bundle: v.bundle, ..d0 };
        assert(message::reaches::<Self>(p1, d1, limit)) by {
            if let Some(m) = v.bundle {
                message::lemma_payload_fits(f1, 0);
                message::lemma_message_round_trip::<RawDigest>(m, limit);
            }
            assert(f1.len() == 1 || d0 =~= d1);
            message::lemma_reaches_field::<Self>(Seq::empty(), f1, d0, d1, limit);
        }
        let d2 = ContainerLayerDataView { config: v.config, ..d1 };
        assert(message::reaches::<Self>(p2, d2, limit)) by {
            if let Some(m) = v.config {
                message::lemma_payload_fits(f2, 0);
                message::lemma_message_round_trip::<RawDigest>(m, limit);
            }
            assert(f2.len() == 1 || d1 =~= d2);
            message::lemma_reaches_field::<Self>(p1, f2, d1, d2, limit);
        }
        let d3 = ContainerLayerDataView { hybrid_encryption_public_key: v.hybrid_encryption_public_key, ..d2 };
        assert(message::reaches::<Self>(p3, d3, limit)) by {
            assert(f3.len() == 1 || d2 =~= d3);
            message::lemma_reaches_field::<Self>(p2, f3, d2, d3, limit);
        }
        let d4 = ContainerLayerDataView { signing_public_key: v.signing_public_key, ..d3 };
        assert(message::reaches::<Self>(p4, d4, limit)) by {
            assert(f4.len() == 1 || d3 =~= d4);
            message::lemma_reaches_field::<Self>(p3, f4, d3, d4, limit);
        }
        let d5 = ContainerLayerDataView { session_binding_public_key: v.session_binding_public_key, ..d4 };
        assert(message::reaches::<Self>(p5, d5, limit)) by {
            assert(f5.len() == 1 || d4 =~= d5);
            message::lemma_reaches_field::<Self>(p4, f5, d4, d5, limit);
        }
        assert(d5 =~= v);
        message::lemma_fitting_is_writable(all);
    }

    fn empty() -> Self {
        ContainerLayerData {
            bundle: None,
            config: None,
            hybrid_encryption_public_key: Vec::new(),
            signing_public_key: Vec::new(),
            session_binding_public_key: Vec::new(),
        }
    }

    fn fields(&self) -> Vec<Field> {
        let mut out: Vec<Field> = Vec::new();
        message::push_optional(&mut out, 1, &self.bundle);
        message::push_optional(&mut out, 2, &self.config);
        message::push_bytes(&mut out, 3, &self.hybrid_encryption_public_key);
        message::push_bytes(&mut out, 4, &self.signing_public_key);
        message::push_bytes(&mut out, 5, &self.session_binding_public_key);
        assert(order::views(out@) =~= Self::fields_of(self@));
        out
    }

    fn merge(&mut self, field: &Field, limit: u32) -> Result<(), WireError> {
        if field.tag == 1 {
            let current = self.bundle.take();
            match message::read_message(current, &field.value, limit) {
                None => return Err(WireError),
                Some(bundle) => self.bundle = Some(bundle),
            }
        } else if field.tag == 2 {
            let current = self.config.take();
            match message::read_message(current, &field.value, limit) {
                None => return Err(WireError),
                Some(config) => self.config = Some(config),
            }
        } else if field.tag == 3 {
            match message::read_bytes(&field.value) {
                None => return Err(WireError),
                Some(hybrid_encryption_public_key) => self.hybrid_encryption_public_key = hybrid_encryption_public_key,
            }
        } else if field.tag == 4 {
            match message::read_bytes(&field.value) {
                None => return Err(WireError),
                Some(signing_public_key) => self.signing_public_key = signing_public_key,
            }
        } else if field.tag == 5 {
            match message::read_bytes(&field.value) {
                None => return Err(WireError),
                Some(session_binding_public_key) => self.session_binding_public_key = session_binding_public_key,
            }
        }
        Ok(())
    }
}

/// A wasm workload: its measurements, its public keys and its capability claim.
#[derive(Debug, Clone)]
pub struct WasmWorkloadLayerData {
    pub bundle: Option<RawDigest>,
    pub config: Option<RawDigest>,
    pub hybrid_encryption_public_key: Vec<u8>,
    pub signing_public_key: Vec<u8>,
    pub session_binding_public_key: Vec<u8>,
    /// The encoded claim, carried without being read.
    pub capability_claim: Vec<u8>,
}

/// The mathematical counterpart of [`WasmWorkloadLayerData`].
#[verifier::ext_equal]
pub struct WasmWorkloadLayerDataView {
    pub bundle: Option<RawDigestView>,
    pub config: Option<RawDigestView>,
    pub hybrid_encryption_public_key: Seq<u8>,
    pub signing_public_key: Seq<u8>,
    pub session_binding_public_key: Seq<u8>,
    pub capability_claim: Seq<u8>,
}

impl View for WasmWorkloadLayerData {
    type V = WasmWorkloadLayerDataView;

    open spec fn view(&self) -> WasmWorkloadLayerDataView {
        WasmWorkloadLayerDataView {
            bundle: message::optional(self.bundle),
            config: message::optional(self.config),
            hybrid_encryption_public_key: self.hybrid_encryption_public_key@,
            signing_public_key: self.signing_public_key@,
            session_binding_public_key: self.session_binding_public_key@,
            capability_claim: self.capability_claim@,
        }
    }
}

impl Schema for WasmWorkloadLayerData {
    open spec fn default_view() -> WasmWorkloadLayerDataView {
        WasmWorkloadLayerDataView {
            bundle: None,
            config: None,
            hybrid_encryption_public_key: Seq::empty(),
            signing_public_key: Seq::empty(),
            session_binding_public_key: Seq::empty(),
            capability_claim: Seq::empty(),
        }
    }

    open spec fn fields_of(v: WasmWorkloadLayerDataView) -> Seq<wire::FieldView> {
        message::optional_field::<RawDigest>(1, v.bundle)
            + message::optional_field::<RawDigest>(2, v.config)
            + message::bytes_field(3, v.hybrid_encryption_public_key)
            + message::bytes_field(4, v.signing_public_key)
            + message::bytes_field(5, v.session_binding_public_key)
            + message::bytes_field(6, v.capability_claim)
    }

    open spec fn merge_field(v: WasmWorkloadLayerDataView, field: wire::FieldView, limit: nat) -> Option<WasmWorkloadLayerDataView> {
        if field.tag == 1 {
            match message::as_message::<RawDigest>(v.bundle, field.value, limit) {
                None => None,
                Some(bundle) => Some(WasmWorkloadLayerDataView { bundle: Some(bundle), ..v }),
            }
        } else if field.tag == 2 {
            match message::as_message::<RawDigest>(v.config, field.value, limit) {
                None => None,
                Some(config) => Some(WasmWorkloadLayerDataView { config: Some(config), ..v }),
            }
        } else if field.tag == 3 {
            match message::as_bytes(field.value) {
                None => None,
                Some(hybrid_encryption_public_key) => Some(WasmWorkloadLayerDataView { hybrid_encryption_public_key, ..v }),
            }
        } else if field.tag == 4 {
            match message::as_bytes(field.value) {
                None => None,
                Some(signing_public_key) => Some(WasmWorkloadLayerDataView { signing_public_key, ..v }),
            }
        } else if field.tag == 5 {
            match message::as_bytes(field.value) {
                None => None,
                Some(session_binding_public_key) => Some(WasmWorkloadLayerDataView { session_binding_public_key, ..v }),
            }
        } else if field.tag == 6 {
            match message::as_bytes(field.value) {
                None => None,
                Some(capability_claim) => Some(WasmWorkloadLayerDataView { capability_claim, ..v }),
            }
        } else {
            Some(v)
        }
    }

    open spec fn depth() -> nat {
        2
    }
}

impl Message for WasmWorkloadLayerData {
    proof fn merge_round_trip(v: WasmWorkloadLayerDataView, limit: nat) {
        let all = Self::fields_of(v);
        let d0 = Self::default_view();
        let f1 = message::optional_field::<RawDigest>(1, v.bundle);
        let f2 = message::optional_field::<RawDigest>(2, v.config);
        let f3 = message::bytes_field(3, v.hybrid_encryption_public_key);
        let f4 = message::bytes_field(4, v.signing_public_key);
        let f5 = message::bytes_field(5, v.session_binding_public_key);
        let f6 = message::bytes_field(6, v.capability_claim);
        let p1 = f1;
        let p2 = p1 + f2;
        let p3 = p2 + f3;
        let p4 = p3 + f4;
        let p5 = p4 + f5;
        let p6 = p5 + f6;
        assert(wire::fields_bytes(f1).len() <= u64::MAX) by {
            message::lemma_parts_fit(p5, f6);
            message::lemma_parts_fit(p4, f5);
            message::lemma_parts_fit(p3, f4);
            message::lemma_parts_fit(p2, f3);
            message::lemma_parts_fit(p1, f2);
        }
        assert(wire::fields_bytes(f2).len() <= u64::MAX) by {
            message::lemma_parts_fit(p5, f6);
            message::lemma_parts_fit(p4, f5);
            message::lemma_parts_fit(p3, f4);
            message::lemma_parts_fit(p2, f3);
            message::lemma_parts_fit(p1, f2);
        }
        message::lemma_reaches_default::<Self>(limit);
        assert(Seq::empty() + f1 =~= p1);
        let d1 = WasmWorkloadLayerDataView { bundle: v.bundle, ..d0 };
        assert(message::reaches::<Self>(p1, d1, limit)) by {
            if let Some(m) = v.bundle {
                message::lemma_payload_fits(f1, 0);
                message::lemma_message_round_trip::<RawDigest>(m, limit);
            }
            assert(f1.len() == 1 || d0 =~= d1);
            message::lemma_reaches_field::<Self>(Seq::empty(), f1, d0, d1, limit);
        }
        let d2 = WasmWorkloadLayerDataView { config: v.config, ..d1 };
        assert(message::reaches::<Self>(p2, d2, limit)) by {
            if let Some(m) = v.config {
                message::lemma_payload_fits(f2, 0);
                message::lemma_message_round_trip::<RawDigest>(m, limit);
            }
            assert(f2.len() == 1 || d1 =~= d2);
            message::lemma_reaches_field::<Self>(p1, f2, d1, d2, limit);
        }
        let d3 = WasmWorkloadLayerDataView { hybrid_encryption_public_key: v.hybrid_encryption_public_key, ..d2 };
        assert(message::reaches::<Self>(p3, d3, limit)) by {
            assert(f3.len() == 1 || d2 =~= d3);
            message::lemma_reaches_field::<Self>(p2, f3, d2, d3, limit);
        }
        let d4 = WasmWorkloadLayerDataView { signing_public_key: v.signing_public_key, ..d3 };
        assert(message::reaches::<Self>(p4, d4, limit)) by {
            assert(f4.len() == 1 || d3 =~= d4);
            message::lemma_reaches_field::<Self>(p3, f4, d3, d4, limit);
        }
        let d5 = WasmWorkloadLayerDataView { session_binding_public_key: v.session_binding_public_key, ..d4 };
        assert(message::reaches::<Self>(p5, d5, limit)) by {
            assert(f5.len() == 1 || d4 =~= d5);
            message::lemma_reaches_field::<Self>(p4, f5, d4, d5, limit);
        }
        let d6 = WasmWorkloadLayerDataView { capability_claim: v.capability_claim, ..d5 };
        assert(message::reaches::<Self>(p6, d6, limit)) by {
            assert(f6.len() == 1 || d5 =~= d6);
            message::lemma_reaches_field::<Self>(p5, f6, d5, d6, limit);
        }
        assert(d6 =~= v);
        message::lemma_fitting_is_writable(all);
    }

    fn empty() -> Self {
        WasmWorkloadLayerData {
            bundle: None,
            config: None,
            hybrid_encryption_public_key: Vec::new(),
            signing_public_key: Vec::new(),
            session_binding_public_key: Vec::new(),
            capability_claim: Vec::new(),
        }
    }

    fn fields(&self) -> Vec<Field> {
        let mut out: Vec<Field> = Vec::new();
        message::push_optional(&mut out, 1, &self.bundle);
        message::push_optional(&mut out, 2, &self.config);
        message::push_bytes(&mut out, 3, &self.hybrid_encryption_public_key);
        message::push_bytes(&mut out, 4, &self.signing_public_key);
        message::push_bytes(&mut out, 5, &self.session_binding_public_key);
        message::push_bytes(&mut out, 6, &self.capability_claim);
        assert(order::views(out@) =~= Self::fields_of(self@));
        out
    }

    fn merge(&mut self, field: &Field, limit: u32) -> Result<(), WireError> {
        if field.tag == 1 {
            let current = self.bundle.take();
            match message::read_message(current, &field.value, limit) {
                None => return Err(WireError),
                Some(bundle) => self.bundle = Some(bundle),
            }
        } else if field.tag == 2 {
            let current = self.config.take();
            match message::read_message(current, &field.value, limit) {
                None => return Err(WireError),
                Some(config) => self.config = Some(config),
            }
        } else if field.tag == 3 {
            match message::read_bytes(&field.value) {
                None => return Err(WireError),
                Some(hybrid_encryption_public_key) => self.hybrid_encryption_public_key = hybrid_encryption_public_key,
            }
        } else if field.tag == 4 {
            match message::read_bytes(&field.value) {
                None => return Err(WireError),
                Some(signing_public_key) => self.signing_public_key = signing_public_key,
            }
        } else if field.tag == 5 {
            match message::read_bytes(&field.value) {
                None => return Err(WireError),
                Some(session_binding_public_key) => self.session_binding_public_key = session_binding_public_key,
            }
        } else if field.tag == 6 {
            match message::read_bytes(&field.value) {
                None => return Err(WireError),
                Some(capability_claim) => self.capability_claim = capability_claim,
            }
        }
        Ok(())
    }
}

} // verus!
