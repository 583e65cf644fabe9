//! The key release message.

use crate::message;
use crate::message::{Message, Schema};
use crate::order;
use crate::wire;
use crate::wire::{Field, WireError};
use vstd::prelude::*;

verus! {

/// The keys that are released to a transform, each an encoded COSE key.
#[derive(Debug, Clone)]
pub struct ProtectedResponse {
    pub decryption_keys: Vec<Vec<u8>>,
    pub result_encryption_keys: Vec<Vec<u8>>,
}

/// The mathematical counterpart of [`ProtectedResponse`].
#[verifier::ext_equal]
pub struct ProtectedResponseView {
    pub decryption_keys: Seq<Seq<u8>>,
    pub result_encryption_keys: Seq<Seq<u8>>,
}

impl View for ProtectedResponse {
    type V = ProtectedResponseView;

    open spec fn view(&self) -> ProtectedResponseView {
        ProtectedResponseView {
            decryption_keys: order::views(self.decryption_keys@),
            result_encryption_keys: order::views(self.result_encryption_keys@),
        }
    }
}

impl Schema for ProtectedResponse {
    open spec fn default_view() -> ProtectedResponseView {
        ProtectedResponseView {
            decryption_keys: Seq::empty(),
            result_encryption_keys: Seq::empty(),
        }
    }

    open spec fn fields_of(v: ProtectedResponseView) -> Seq<wire::FieldView> {
        message::repeated_field(1, v.decryption_keys)
            + message::repeated_field(2, v.result_encryption_keys)
    }

    open spec fn merge_field(v: ProtectedResponseView, field: wire::FieldView, limit: nat) -> Option<ProtectedResponseView> {
        if field.tag == 1 {
            match message::as_bytes(field.value) {
                None => None,
                Some(item) => Some(ProtectedResponseView { decryption_keys: v.decryption_keys.push(item), ..v }),
            }
        } else if field.tag == 2 {
            match message::as_bytes(field.value) {
                None => None,
                Some(item) => Some(ProtectedResponseView { result_encryption_keys: v.result_encryption_keys.push(item), ..v }),
            }
        } else {
            Some(v)
        }
    }

    open spec fn depth() -> nat {
        1
    }
}

impl Message for ProtectedResponse {
    proof fn merge_round_trip(v: ProtectedResponseView, limit: nat) {
        let all = Self::fields_of(v);
        let d0 = Self::default_view();
        let f1 = message::repeated_field(1, v.decryption_keys);
        let f2 = message::repeated_field(2, v.result_encryption_keys);
        let p1 = f1;
        let p2 = p1 + f2;
        message::lemma_reaches_default::<Self>(limit);
        assert(Seq::empty() + f1 =~= p1);
        let d1 = ProtectedResponseView { decryption_keys: v.decryption_keys, ..d0 };
        assert(message::reaches::<Self>(p1, d1, limit)) by {
            let steps = |k: int| ProtectedResponseView { decryption_keys: v.decryption_keys.take(k), ..d0 };
            assert forall|k: int| 0 <= k < f1.len() implies Self::merge_field(
                steps(k),
                #[trigger] f1[k],
                limit,
            ) == Some(steps(k + 1)) by {
                assert(v.decryption_keys.take(k).push(v.decryption_keys[k]) =~= v.decryption_keys.take(k + 1));
            }
            assert(steps(0) =~= d0);
            assert(steps(f1.len() as int) =~= d1);
            message::lemma_reaches_run::<Self>(Seq::empty(), f1, steps, limit);
        }
        let d2 = ProtectedResponseView { result_encryption_keys: v.result_encryption_keys, ..d1 };
        assert(message::reaches::<Self>(p2, d2, limit)) by {
            let steps = |k: int| ProtectedResponseView { result_encryption_keys: v.result_encryption_keys.take(k), ..d1 };
            assert forall|k: int| 0 <= k < f2.len() implies Self::merge_field(
                steps(k),
                #[trigger] f2[k],
                limit,
            ) == Some(steps(k + 1)) by {
                assert(v.result_encryption_keys.take(k).push(v.result_encryption_keys[k]) =~= v.result_encryption_keys.take(k + 1));
            }
            assert(steps(0) =~= d1);
            assert(steps(f2.len() as int) =~= d2);
            message::lemma_reaches_run::<Self>(p1, f2, steps, limit);
        }
        assert(d2 =~= v);
        message::lemma_fitting_is_writable(all);
    }

    fn empty() -> Self {
        let m = ProtectedResponse {
            decryption_keys: Vec::new(),
            result_encryption_keys: Vec::new(),
        };
        assert(m@ =~= Self::default_view());
        m
    }

    fn fields(&self) -> Vec<Field> {
        let mut out: Vec<Field> = Vec::new();
        message::push_byte_strings(&mut out, 1, &self.decryption_keys);
        message::push_byte_strings(&mut out, 2, &self.result_encryption_keys);
        assert(order::views(out@) =~= Self::fields_of(self@));
        out
    }

    fn merge(&mut self, field: &Field, limit: u32) -> Result<(), WireError> {
        if field.tag == 1 {
            match message::read_bytes(&field.value) {
                None => return Err(WireError),
                Some(item) => self.decryption_keys.push(item),
            }
        } else if field.tag == 2 {
            match message::read_bytes(&field.value) {
                None => return Err(WireError),
                Some(item) => self.result_encryption_keys.push(item),
            }
        }
        proof {
            if let Some(v) = Self::merge_field(old(self)@, field@, limit as nat) {
                assert(order::views(self.decryption_keys@) =~= v.decryption_keys);
                assert(order::views(self.result_encryption_keys@) =~= v.result_encryption_keys);
            }
        }
        Ok(())
    }
}

} // verus!
