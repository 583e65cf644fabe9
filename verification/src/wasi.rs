//! What the WASI context of a guest allows.

use crate::proto::claim;
use crate::proto::claim::{RandomGrant, StdioGrant, WasiRuntimeGrant};
use crate::wasi_context::{WasiBuilder, WasiContext};
use vstd::prelude::*;

verus! {

/// What a context allows before anything is configured: no files, no environment,
/// no arguments and no network; standard streams that lead nowhere; the clocks of
/// the host, and a secure random generator.
pub open spec fn default_allowance() -> claim::WasiRuntimeGrantView {
    claim::WasiRuntimeGrantView {
        preopens: Seq::empty(),
        network: false,
        env_names: Seq::empty(),
        args: Seq::empty(),
        stdin: StdioGrant::Closed.number(),
        stdout: StdioGrant::Sink.number(),
        stderr: StdioGrant::Sink.number(),
        wall_clock: true,
        monotonic_clock: true,
        random: RandomGrant::Secure.number(),
    }
}

/// A grant that allows no files, no network and no environment.
pub open spec fn denies_all(g: claim::WasiRuntimeGrantView) -> bool {
    g.preopens.len() == 0 && !g.network && g.env_names.len() == 0
}

/// A stream: the host's where that is granted, and otherwise the default.
pub open spec fn realized_stream(granted: i32, default: i32) -> i32 {
    if granted == StdioGrant::Inherit.number() {
        granted
    } else {
        default
    }
}

/// What the context for a grant allows: the defaults, but for the streams that the
/// grant hands over.
pub open spec fn realized(g: claim::WasiRuntimeGrantView) -> claim::WasiRuntimeGrantView {
    let base = default_allowance();
    claim::WasiRuntimeGrantView {
        stdin: realized_stream(g.stdin, base.stdin),
        stdout: realized_stream(g.stdout, base.stdout),
        stderr: realized_stream(g.stderr, base.stderr),
        ..base
    }
}

/// Builds the context realizing `grant`. A deny-all grant maps exactly to the
/// builder's defaults; only non-default streams are applied here.
pub fn build_wasi_ctx(grant: &WasiRuntimeGrant) -> (c: WasiContext)
    requires
        denies_all(grant@),
    ensures
        c.allows() == realized(grant@),
{
    let mut b = WasiBuilder::new();
    if grant.stdin == StdioGrant::Inherit.number() {
        b.inherit_stdin();
    }
    if grant.stdout == StdioGrant::Inherit.number() {
        b.inherit_stdout();
    }
    if grant.stderr == StdioGrant::Inherit.number() {
        b.inherit_stderr();
    }
    b.build()
}

// ---------------------------------------------------------------------------
// Laws
// ---------------------------------------------------------------------------

/// Whatever is granted, the context allows no files, no network, no environment and no
/// arguments; it has both clocks and the secure generator (1). A standard stream leads
/// to the host (2) exactly where the grant says so; otherwise input is closed (0), and
/// output and errors are dropped (1).
pub proof fn law_context_allows_only_granted_streams(g: claim::WasiRuntimeGrantView)
    ensures
        realized(g).preopens.len() == 0,
        !realized(g).network,
        realized(g).env_names.len() == 0,
        realized(g).args.len() == 0,
        realized(g).wall_clock,
        realized(g).monotonic_clock,
        realized(g).random == 1,
        realized(g).stdin == (if g.stdin == 2 {
            2i32
        } else {
            0i32
        }),
        realized(g).stdout == (if g.stdout == 2 {
            2i32
        } else {
            1i32
        }),
        realized(g).stderr == (if g.stderr == 2 {
            2i32
        } else {
            1i32
        }),
{
}

/// A grant denies everything exactly where it names no directory and no variable and
/// keeps the network closed; its streams, clocks and generator do not matter.
pub proof fn law_what_it_takes_to_deny_all(g: claim::WasiRuntimeGrantView)
    ensures
        denies_all(g) <==> (g.preopens.len() == 0 && g.env_names.len() == 0 && !g.network),
        denies_all(realized(g)),
{
}

} // verus!
