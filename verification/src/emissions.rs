//! The blobs that a guest has emitted.

use crate::order;
use crate::runtime::GuestData;
use crate::transform_session::{EmittedBlob, EmittedBlobView};
use crate::wasi_context::GuestState;
use vstd::prelude::*;

verus! {

/// The blobs that a guest emitted, until they are taken out.
pub struct Emissions {
    emitted: Vec<EmittedBlob>,
    taken: Ghost<Seq<EmittedBlobView>>,
}

impl Emissions {
    /// The blobs that were emitted and not taken out yet, in order.
    pub closed spec fn pending(&self) -> Seq<EmittedBlobView> {
        order::views(self.emitted@)
    }

    /// The blobs that were taken out so far, in order.
    pub closed spec fn taken(&self) -> Seq<EmittedBlobView> {
        self.taken@
    }

    /// Nothing was emitted yet.
    pub fn new() -> (emissions: Emissions)
        ensures
            emissions.pending() == Seq::<EmittedBlobView>::empty(),
            emissions.taken() == Seq::<EmittedBlobView>::empty(),
    {
        let emissions = Emissions { emitted: Vec::new(), taken: Ghost(Seq::empty()) };
        assert(emissions.pending() =~= Seq::empty());
        emissions
    }

    /// Records one emitted blob.
    pub fn record(&mut self, blob: EmittedBlob)
        ensures
            final(self).pending() == old(self).pending().push(blob@),
            final(self).taken() == old(self).taken(),
    {
        self.emitted.push(blob);
        assert(self.pending() =~= old(self).pending().push(blob@));
    }

    /// Takes out the blobs that were emitted so far.
    pub fn take(&mut self) -> (blobs: Vec<EmittedBlob>)
        ensures
            order::views(blobs@) == old(self).pending(),
            final(self).pending() == Seq::<EmittedBlobView>::empty(),
            final(self).taken() == old(self).taken() + old(self).pending(),
    {
        let mut blobs: Vec<EmittedBlob> = Vec::new();
        std::mem::swap(&mut blobs, &mut self.emitted);
        self.taken = Ghost(self.taken() + order::views(blobs@));
        assert(self.pending() =~= Seq::empty());
        blobs
    }
}

/// Guests can emit more blobs, behind those that are there, and nothing else. In
/// particular no WASI function widens what the context allows.
impl GuestData for GuestState<Emissions> {
    open spec fn changed_by_guests(
        before: GuestState<Emissions>,
        after: GuestState<Emissions>,
    ) -> bool {
        &&& before.data().pending().is_prefix_of(after.data().pending())
        &&& after.data().taken() == before.data().taken()
        &&& after.allows() == before.allows()
    }
}

} // verus!
