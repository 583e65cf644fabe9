//! The WASI context of a guest, and the builder that makes it.
//!
//! Both carry a record of what they allow. Nothing but the calls in this module sets
//! it.

use crate::proto::claim;
use crate::proto::claim::StdioGrant;
use crate::wasi;
use vstd::prelude::*;
use wasmtime_wasi::{ResourceTable, WasiCtx, WasiCtxBuilder, WasiView};

verus! {

/// Declares `wasmtime_wasi::WasiCtxBuilder`.
#[verifier::external_type_specification]
#[verifier::external_body]
pub struct ExWasiCtxBuilder(wasmtime_wasi::WasiCtxBuilder);

/// Declares `wasmtime_wasi::WasiCtx`.
#[verifier::external_type_specification]
#[verifier::external_body]
pub struct ExWasiCtx(wasmtime_wasi::WasiCtx);

/// Declares `wasmtime_wasi::ResourceTable`.
#[verifier::external_type_specification]
#[verifier::external_body]
pub struct ExResourceTable(wasmtime_wasi::ResourceTable);

/// A WASI context under construction.
pub struct WasiBuilder {
    builder: WasiCtxBuilder,
    allowed: Ghost<claim::WasiRuntimeGrantView>,
}

/// A WASI context, with the table of the resources that a guest holds. What is
/// recorded of it is recorded of that very context.
pub struct WasiContext {
    ctx: WasiCtx,
    table: ResourceTable,
    recorded: Ghost<(WasiCtx, claim::WasiRuntimeGrantView)>,
}

impl WasiContext {
    /// What the context allows a guest.
    pub closed spec fn allows(&self) -> claim::WasiRuntimeGrantView {
        if self.ctx == self.recorded@.0 {
            self.recorded@.1
        } else {
            arbitrary()
        }
    }
}

/// What the store of a confined guest holds: the WASI context that it runs under, and
/// what else the host keeps for it.
pub struct GuestState<D> {
    context: WasiContext,
    data: D,
}

impl<D> GuestState<D> {
    /// What the context allows the guest.
    pub closed spec fn allows(&self) -> claim::WasiRuntimeGrantView {
        self.context.allows()
    }

    /// The context itself.
    pub closed spec fn context(&self) -> WasiCtx {
        self.context.ctx
    }

    /// The table of the resources that the guest holds.
    pub closed spec fn resources(&self) -> ResourceTable {
        self.context.table
    }

    /// What else the host keeps for the guest.
    pub closed spec fn data(&self) -> D {
        self.data
    }

    /// The state of a guest under a context.
    pub fn new(context: WasiContext, data: D) -> (state: GuestState<D>)
        ensures
            state.allows() == context.allows(),
            state.data() == data,
    {
        GuestState { context, data }
    }

    /// What else the host keeps for the guest.
    pub fn data_mut(&mut self) -> (data: &mut D)
        ensures
            *data == old(self).data(),
            final(self).data() == *final(data),
            final(self).allows() == old(self).allows(),
    {
        &mut self.data
    }
}

/// WASI functions reach the context and its table, and nothing else.
impl<D: Send> WasiView for GuestState<D> {
    fn table(&mut self) -> (table: &mut ResourceTable)
        ensures
            *table == old(self).resources(),
            final(self).resources() == *final(table),
            final(self).context() == old(self).context(),
            final(self).data() == old(self).data(),
            final(self).allows() == old(self).allows(),
    {
        &mut self.context.table
    }

    fn ctx(&mut self) -> (ctx: &mut WasiCtx)
        ensures
            *ctx == old(self).context(),
            final(self).context() == *final(ctx),
            final(self).resources() == old(self).resources(),
            final(self).data() == old(self).data(),
            *final(ctx) == old(self).context() ==> final(self).allows() == old(self).allows(),
    {
        &mut self.context.ctx
    }
}

impl WasiBuilder {
    /// What the context will allow a guest.
    pub closed spec fn allows(&self) -> claim::WasiRuntimeGrantView {
        self.allowed@
    }

    /// Calls `wasmtime_wasi::WasiCtxBuilder::new`. Claimed: a context starts out
    /// with the defaults that the crate documents. (It lets a guest open sockets,
    /// but denies every address, which counts as no network.)
    #[verifier::external_body]
    pub(crate) fn new() -> (b: WasiBuilder)
        ensures
            b.allows() == wasi::default_allowance(),
    {
        WasiBuilder { builder: WasiCtxBuilder::new(), allowed: Ghost(wasi::default_allowance()) }
    }

    /// Calls `wasmtime_wasi::WasiCtxBuilder::inherit_stdin`. Claimed: standard
    /// input leads to the host's, and nothing else changes.
    #[verifier::external_body]
    pub(crate) fn inherit_stdin(&mut self)
        ensures
            final(self).allows() == (claim::WasiRuntimeGrantView {
                stdin: StdioGrant::Inherit.number(),
                ..old(self).allows()
            }),
    {
        self.builder.inherit_stdin();
    }

    /// Calls `wasmtime_wasi::WasiCtxBuilder::inherit_stdout`. Claimed: standard
    /// output leads to the host's, and nothing else changes.
    #[verifier::external_body]
    pub(crate) fn inherit_stdout(&mut self)
        ensures
            final(self).allows() == (claim::WasiRuntimeGrantView {
                stdout: StdioGrant::Inherit.number(),
                ..old(self).allows()
            }),
    {
        self.builder.inherit_stdout();
    }

    /// Calls `wasmtime_wasi::WasiCtxBuilder::inherit_stderr`. Claimed: standard
    /// error leads to the host's, and nothing else changes.
    #[verifier::external_body]
    pub(crate) fn inherit_stderr(&mut self)
        ensures
            final(self).allows() == (claim::WasiRuntimeGrantView {
                stderr: StdioGrant::Inherit.number(),
                ..old(self).allows()
            }),
    {
        self.builder.inherit_stderr();
    }

    /// Calls `wasmtime_wasi::WasiCtxBuilder::build`, and
    /// `wasmtime_wasi::ResourceTable::new` for a table to go with it. Claimed: the
    /// context allows what was configured.
    #[verifier::external_body]
    pub(crate) fn build(self) -> (c: WasiContext)
        ensures
            c.allows() == self.allows(),
    {
        let mut builder = self.builder;
        let ctx = builder.build();
        let ghost recorded = (ctx, self.allows());
        WasiContext { ctx, table: ResourceTable::new(), recorded: Ghost(recorded) }
    }
}

} // verus!
