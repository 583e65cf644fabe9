//! The application commitment: a hash over the canonical form of a composition.

use crate::canonical;
use crate::canonical::Recorded;
use crate::hash;
use crate::message;
use crate::order;
use crate::order::Keyed;
use crate::proto::claim;
use crate::proto::claim::{
    ComponentClaim, CompositionGraph, Edge, GrantedWasiCapability, Preopen, WasiRuntimeGrant,
    WasmRuntimeInfo,
};
use crate::text;
use vstd::prelude::*;
use vstd::utf8::*;

verus! {

/// Domain-separation tag for the application commitment preimage.
pub const COMMITMENT_TAG: &'static str = "cfc-wasm-commit-v1";

// ---------------------------------------------------------------------------
// Canonical order
// ---------------------------------------------------------------------------

fn copy_bytes(b: &Vec<u8>) -> (r: Vec<u8>)
    ensures
        r@ == b@,
{
    vstd::slice::slice_to_vec(b.as_slice())
}

/// A copy of a list of records.
pub fn copy_all<T: Keyed>(items: &[T]) -> (r: Vec<T>)
    ensures
        order::views(r@) == order::views(items@),
{
    let mut r: Vec<T> = Vec::new();
    let mut i: usize = 0;
    while i < items.len()
        invariant
            i <= items@.len(),
            order::views(r@) == order::views(items@).take(i as int),
        decreases items@.len() - i,
    {
        let copy = items[i].duplicate();
        proof {
            let all = order::views(items@);
            assert(all.take(i + 1) =~= all.take(i as int).push(all[i as int]));
            assert(order::views(r@.push(copy)) =~= order::views(r@).push(copy@));
        }
        r.push(copy);
        i = i + 1;
    }
    assert(order::views(r@) =~= order::views(items@));
    r
}

/// A copy of a grant.
pub fn copy_grant(g: &WasiRuntimeGrant) -> (r: WasiRuntimeGrant)
    ensures
        r@ == g@,
{
    WasiRuntimeGrant {
        preopens: copy_all(g.preopens.as_slice()),
        network: g.network,
        env_names: copy_all(g.env_names.as_slice()),
        args: copy_all(g.args.as_slice()),
        stdin: g.stdin,
        stdout: g.stdout,
        stderr: g.stderr,
        wall_clock: g.wall_clock,
        monotonic_clock: g.monotonic_clock,
        random: g.random,
    }
}

/// One name of a key against one of another; `rest` says whether what follows
/// the first comes before what follows the second.
fn name_before(a: &String, b: &String, rest: bool) -> (r: bool)
    ensures
        r == (if encode_utf8(a@) == encode_utf8(b@) {
            rest
        } else {
            order::bytes_lt(encode_utf8(a@), encode_utf8(b@))
        }),
{
    let x = a.as_str().as_bytes();
    let y = b.as_str().as_bytes();
    if order::bytes_equal(x, y) {
        rest
    } else {
        order::bytes_before(x, y)
    }
}

/// Comparing keys name by name.
proof fn lemma_key_step(a: Seq<Seq<u8>>, b: Seq<Seq<u8>>)
    requires
        a.len() > 0,
        b.len() > 0,
    ensures
        order::key_lt(a, b) == (if a[0] == b[0] {
            order::key_lt(a.drop_first(), b.drop_first())
        } else {
            order::bytes_lt(a[0], b[0])
        }),
{
}

impl Keyed for String {
    open spec fn key_of(v: Seq<char>) -> Seq<Seq<u8>> {
        seq![encode_utf8(v)]
    }

    fn precedes(&self, other: &Self) -> bool {
        proof {
            lemma_key_step(Self::key_of(self@), Self::key_of(other@));
        }
        name_before(self, other, false)
    }

    fn duplicate(&self) -> Self {
        self.clone()
    }
}

impl Keyed for ComponentClaim {
    open spec fn key_of(v: claim::ComponentClaimView) -> Seq<Seq<u8>> {
        seq![encode_utf8(v.id)]
    }

    fn precedes(&self, other: &Self) -> bool {
        proof {
            lemma_key_step(Self::key_of(self@), Self::key_of(other@));
        }
        name_before(&self.id, &other.id, false)
    }

    fn duplicate(&self) -> Self {
        ComponentClaim {
            id: self.id.clone(),
            role: self.role.clone(),
            digest: copy_bytes(&self.digest),
            confidential: self.confidential,
        }
    }
}

impl Keyed for Preopen {
    open spec fn key_of(v: claim::PreopenView) -> Seq<Seq<u8>> {
        seq![encode_utf8(v.guest_path)]
    }

    fn precedes(&self, other: &Self) -> bool {
        proof {
            lemma_key_step(Self::key_of(self@), Self::key_of(other@));
        }
        name_before(&self.guest_path, &other.guest_path, false)
    }

    fn duplicate(&self) -> Self {
        Preopen {
            guest_path: self.guest_path.clone(),
            dir_perms: self.dir_perms,
            file_perms: self.file_perms,
        }
    }
}

impl Keyed for Edge {
    open spec fn key_of(v: claim::EdgeView) -> Seq<Seq<u8>> {
        seq![encode_utf8(v.from), encode_utf8(v.to), encode_utf8(v.interface)]
    }

    fn precedes(&self, other: &Self) -> bool {
        proof {
            let a = Self::key_of(self@);
            let b = Self::key_of(other@);
            lemma_key_step(a, b);
            lemma_key_step(a.drop_first(), b.drop_first());
            lemma_key_step(a.drop_first().drop_first(), b.drop_first().drop_first());
        }
        let by_interface = name_before(&self.interface, &other.interface, false);
        let by_to = name_before(&self.to, &other.to, by_interface);
        name_before(&self.from, &other.from, by_to)
    }

    fn duplicate(&self) -> Self {
        Edge { from: self.from.clone(), to: self.to.clone(), interface: self.interface.clone() }
    }
}

impl Keyed for GrantedWasiCapability {
    open spec fn key_of(v: claim::GrantedWasiCapabilityView) -> Seq<Seq<u8>> {
        seq![encode_utf8(v.interface), encode_utf8(v.component_id)]
    }

    fn precedes(&self, other: &Self) -> bool {
        proof {
            let a = Self::key_of(self@);
            let b = Self::key_of(other@);
            lemma_key_step(a, b);
            lemma_key_step(a.drop_first(), b.drop_first());
        }
        let by_component = name_before(&self.component_id, &other.component_id, false);
        name_before(&self.interface, &other.interface, by_component)
    }

    fn duplicate(&self) -> Self {
        GrantedWasiCapability {
            interface: self.interface.clone(),
            component_id: self.component_id.clone(),
            operations: copy_all(self.operations.as_slice()),
            resources: copy_all(self.resources.as_slice()),
            provenance: self.provenance,
        }
    }
}

// ---------------------------------------------------------------------------
// Records
// ---------------------------------------------------------------------------

impl Recorded for String {
    open spec fn record_of(v: Seq<char>) -> Seq<Seq<u8>> {
        seq![encode_utf8(v)]
    }

    fn push_record(&self, out: &mut Vec<u8>) {
        canonical::push_text(out, self);
        proof {
            canonical::lemma_record_push(Seq::empty(), encode_utf8(self@));
            assert(out@ =~= old(out)@ + canonical::record(Self::record_of(self@)));
        }
    }
}

impl Recorded for ComponentClaim {
    open spec fn record_of(v: claim::ComponentClaimView) -> Seq<Seq<u8>> {
        seq![encode_utf8(v.id), encode_utf8(v.role), v.digest]
    }

    fn push_record(&self, out: &mut Vec<u8>) {
        canonical::push_text(out, &self.id);
        canonical::push_text(out, &self.role);
        canonical::push_prefixed(out, self.digest.as_slice());
        proof {
            let id = encode_utf8(self.id@);
            let role = encode_utf8(self.role@);
            canonical::lemma_record_push(Seq::empty(), id);
            canonical::lemma_record_push(seq![id], role);
            canonical::lemma_record_push(seq![id, role], self.digest@);
            assert(seq![id].push(role) =~= seq![id, role]);
            assert(seq![id, role].push(self.digest@) =~= Self::record_of(self@));
            assert(out@ =~= old(out)@ + canonical::record(Self::record_of(self@)));
        }
    }
}

impl Recorded for Edge {
    open spec fn record_of(v: claim::EdgeView) -> Seq<Seq<u8>> {
        seq![encode_utf8(v.from), encode_utf8(v.to), encode_utf8(v.interface)]
    }

    fn push_record(&self, out: &mut Vec<u8>) {
        canonical::push_text(out, &self.from);
        canonical::push_text(out, &self.to);
        canonical::push_text(out, &self.interface);
        proof {
            let from = encode_utf8(self.from@);
            let to = encode_utf8(self.to@);
            canonical::lemma_record_push(Seq::empty(), from);
            canonical::lemma_record_push(seq![from], to);
            canonical::lemma_record_push(seq![from, to], encode_utf8(self.interface@));
            assert(seq![from].push(to) =~= seq![from, to]);
            assert(seq![from, to].push(encode_utf8(self.interface@)) =~= Self::record_of(self@));
            assert(out@ =~= old(out)@ + canonical::record(Self::record_of(self@)));
        }
    }
}

impl Recorded for GrantedWasiCapability {
    open spec fn record_of(v: claim::GrantedWasiCapabilityView) -> Seq<Seq<u8>> {
        seq![encode_utf8(v.interface), encode_utf8(v.component_id)]
    }

    fn push_record(&self, out: &mut Vec<u8>) {
        canonical::push_text(out, &self.interface);
        canonical::push_text(out, &self.component_id);
        proof {
            let interface = encode_utf8(self.interface@);
            canonical::lemma_record_push(Seq::empty(), interface);
            canonical::lemma_record_push(seq![interface], encode_utf8(self.component_id@));
            assert(seq![interface].push(encode_utf8(self.component_id@)) =~= Self::record_of(
                self@,
            ));
            assert(out@ =~= old(out)@ + canonical::record(Self::record_of(self@)));
        }
    }
}

// ---------------------------------------------------------------------------
// The preimage
// ---------------------------------------------------------------------------

/// A directory grant: its path behind its length, then both permission words.
pub open spec fn preopen_bytes(p: claim::PreopenView) -> Seq<u8> {
    canonical::prefixed(encode_utf8(p.guest_path)) + canonical::le_bytes(p.dir_perms as nat, 4)
        + canonical::le_bytes(p.file_perms as nat, 4)
}

/// Directory grants, one after the other.
pub open spec fn preopens_bytes(ps: Seq<claim::PreopenView>) -> Seq<u8>
    decreases ps.len(),
{
    if ps.len() == 0 {
        Seq::empty()
    } else {
        preopens_bytes(ps.drop_last()) + preopen_bytes(ps.last())
    }
}

/// A signed number in two's complement.
pub open spec fn int_bytes(n: i32) -> Seq<u8> {
    canonical::le_bytes((n as u32) as nat, 4)
}

/// A flag as one byte.
pub open spec fn flag_bytes(b: bool) -> Seq<u8> {
    seq![
        if b {
            1u8
        } else {
            0u8
        },
    ]
}

/// The streams, the clocks and the random numbers of a grant.
pub open spec fn grant_tail_bytes(g: claim::WasiRuntimeGrantView) -> Seq<u8> {
    int_bytes(g.stdin) + int_bytes(g.stdout) + int_bytes(g.stderr) + flag_bytes(g.wall_clock)
        + flag_bytes(g.monotonic_clock) + int_bytes(g.random)
}

/// The fields of a grant in a fixed order, its directories and environment
/// names sorted.
pub open spec fn present_grant_bytes(g: claim::WasiRuntimeGrantView) -> Seq<u8> {
    canonical::le_bytes(g.preopens.len(), 8) + preopens_bytes(order::sorted::<Preopen>(g.preopens))
        + flag_bytes(g.network) + canonical::counted(
        canonical::records_of::<String>(order::sorted::<String>(g.env_names)),
    ) + canonical::counted(canonical::records_of::<String>(g.args)) + grant_tail_bytes(g)
}

/// A presence byte, then the grant where there is one.
pub open spec fn grant_bytes(grant: Option<claim::WasiRuntimeGrantView>) -> Seq<u8> {
    match grant {
        None => seq![0u8],
        Some(g) => seq![1u8] + present_grant_bytes(g),
    }
}

/// The engine and its versions.
pub open spec fn runtime_bytes(info: claim::WasmRuntimeInfoView) -> Seq<u8> {
    canonical::prefixed(encode_utf8(info.engine)) + canonical::prefixed(
        encode_utf8(info.engine_version),
    ) + canonical::prefixed(encode_utf8(info.wasi_version))
}

/// A tag, a list of records, three lists of records behind their numbers, and
/// two more parts.
#[verifier::opaque]
pub open spec fn assembled(
    tag: Seq<u8>,
    components: Seq<Seq<Seq<u8>>>,
    nodes: Seq<Seq<Seq<u8>>>,
    edges: Seq<Seq<Seq<u8>>>,
    granted: Seq<Seq<Seq<u8>>>,
    runtime: Seq<u8>,
    grant: Seq<u8>,
) -> Seq<u8> {
    tag + canonical::records(components) + canonical::counted(nodes) + canonical::counted(edges)
        + canonical::counted(granted) + runtime + grant
}

/// What is hashed: the domain tag, the components sorted by id, the graph, the
/// granted capabilities, the engine and the grant.
pub open spec fn preimage(
    components: Seq<claim::ComponentClaimView>,
    graph: claim::CompositionGraphView,
    granted: Seq<claim::GrantedWasiCapabilityView>,
    info: claim::WasmRuntimeInfoView,
    grant: Option<claim::WasiRuntimeGrantView>,
) -> Seq<u8> {
    assembled(
        encode_utf8(COMMITMENT_TAG@),
        canonical::records_of::<ComponentClaim>(order::sorted::<ComponentClaim>(components)),
        canonical::records_of::<String>(graph.nodes),
        canonical::records_of::<Edge>(graph.edges),
        canonical::records_of::<GrantedWasiCapability>(granted),
        runtime_bytes(info),
        grant_bytes(grant),
    )
}

fn push_int(out: &mut Vec<u8>, n: i32)
    ensures
        final(out)@ == old(out)@ + int_bytes(n),
{
    let bits: u32 = #[verifier::truncate] (n as u32);
    canonical::push_le(out, bits as u64, 4);
}

fn push_flag(out: &mut Vec<u8>, b: bool)
    ensures
        final(out)@ == old(out)@ + flag_bytes(b),
{
    if b {
        out.push(1);
    } else {
        out.push(0);
    }
    assert(out@ =~= old(out)@ + flag_bytes(b));
}

fn push_preopens(out: &mut Vec<u8>, items: &Vec<Preopen>)
    ensures
        final(out)@ == old(out)@ + preopens_bytes(order::views(items@)),
{
    let ghost all = order::views(items@);
    let ghost start = out@;
    let mut i: usize = 0;
    proof {
        assert(all.take(0) =~= Seq::empty());
        assert(start + preopens_bytes(all.take(0)) =~= start);
    }
    while i < items.len()
        invariant
            i <= items@.len(),
            all == order::views(items@),
            out@ == start + preopens_bytes(all.take(i as int)),
        decreases items@.len() - i,
    {
        let p = &items[i];
        canonical::push_text(out, &p.guest_path);
        canonical::push_le(out, p.dir_perms as u64, 4);
        canonical::push_le(out, p.file_perms as u64, 4);
        proof {
            assert(all.take(i + 1).drop_last() =~= all.take(i as int));
            assert(all.take(i + 1).last() == p@);
            assert(out@ =~= start + preopens_bytes(all.take(i + 1)));
        }
        i = i + 1;
    }
    assert(all.take(items@.len() as int) =~= all);
}

fn encode_grant_tail(g: &WasiRuntimeGrant) -> (out: Vec<u8>)
    ensures
        out@ == grant_tail_bytes(g@),
{
    let mut out: Vec<u8> = Vec::new();
    push_int(&mut out, g.stdin);
    assert(out@ =~= int_bytes(g.stdin));
    push_int(&mut out, g.stdout);
    push_int(&mut out, g.stderr);
    push_flag(&mut out, g.wall_clock);
    push_flag(&mut out, g.monotonic_clock);
    push_int(&mut out, g.random);
    out
}

fn encode_grant(g: &WasiRuntimeGrant) -> (out: Vec<u8>)
    ensures
        out@ == present_grant_bytes(g@),
{
    let mut out: Vec<u8> = Vec::new();
    let preopens = order::stable_sort(g.preopens.as_slice());
    proof {
        order::lemma_sorted_is_ordered_permutation::<Preopen>(order::views(g.preopens@));
        assert(order::views(preopens@).len() == g.preopens@.len());
    }
    canonical::push_len(&mut out, preopens.len());
    assert(out@ =~= canonical::le_bytes(g@.preopens.len(), 8));
    push_preopens(&mut out, &preopens);
    push_flag(&mut out, g.network);
    let env_names = order::stable_sort(g.env_names.as_slice());
    canonical::push_counted(&mut out, &env_names);
    canonical::push_counted(&mut out, &g.args);
    let tail = encode_grant_tail(g);
    out.extend_from_slice(tail.as_slice());
    out
}

fn push_grant(out: &mut Vec<u8>, grant: Option<&WasiRuntimeGrant>)
    ensures
        final(out)@ == old(out)@ + grant_bytes(message::optional(grant)),
{
    match grant {
        None => {
            out.push(0);
        },
        Some(g) => {
            out.push(1);
            let present = encode_grant(g);
            out.extend_from_slice(present.as_slice());
        },
    }
    assert(out@ =~= old(out)@ + grant_bytes(message::optional(grant)));
}

/// Computes the application commitment: the SHA-256 of the canonical form of
/// the composition. Every variable-length part stands behind its length.
pub fn commitment(
    components: &Vec<ComponentClaim>,
    graph: &CompositionGraph,
    granted: &Vec<GrantedWasiCapability>,
    runtime_info: &WasmRuntimeInfo,
    grant: Option<&WasiRuntimeGrant>,
) -> (digest: Vec<u8>)
    ensures
        digest@ == hash::sha256_digest(
            preimage(
                order::views(components@),
                graph@,
                order::views(granted@),
                runtime_info@,
                message::optional(grant),
            ),
        ),
        digest@.len() == 32,
{
    let mut out: Vec<u8> = Vec::new();
    out.extend_from_slice(COMMITMENT_TAG.as_bytes());
    let sorted = order::stable_sort(components.as_slice());
    canonical::push_records(&mut out, &sorted);
    canonical::push_counted(&mut out, &graph.nodes);
    canonical::push_counted(&mut out, &graph.edges);
    canonical::push_counted(&mut out, granted);
    canonical::push_text(&mut out, &runtime_info.engine);
    canonical::push_text(&mut out, &runtime_info.engine_version);
    canonical::push_text(&mut out, &runtime_info.wasi_version);
    push_grant(&mut out, grant);
    proof {
        reveal(assembled);
    }
    assert(out@ =~= preimage(
        order::views(components@),
        graph@,
        order::views(granted@),
        runtime_info@,
        message::optional(grant),
    ));
    hash::sha256(out.as_slice())
}

// ---------------------------------------------------------------------------
// What the preimage determines
// ---------------------------------------------------------------------------

proof fn lemma_same_names(a: Seq<Seq<char>>, b: Seq<Seq<char>>)
    requires
        canonical::records_of::<String>(a) == canonical::records_of::<String>(b),
    ensures
        a == b,
{
    let ra = canonical::records_of::<String>(a);
    let rb = canonical::records_of::<String>(b);
    assert(ra.len() == a.len());
    assert(rb.len() == b.len());
    assert forall|i: int| 0 <= i < a.len() implies a[i] == b[i] by {
        assert(ra[i][0] == rb[i][0]);
        text::lemma_utf8_injective(a[i], b[i]);
    }
    assert(a =~= b);
}

proof fn lemma_same_edges(a: Seq<claim::EdgeView>, b: Seq<claim::EdgeView>)
    requires
        canonical::records_of::<Edge>(a) == canonical::records_of::<Edge>(b),
    ensures
        a == b,
{
    let ra = canonical::records_of::<Edge>(a);
    let rb = canonical::records_of::<Edge>(b);
    assert(ra.len() == a.len());
    assert(rb.len() == b.len());
    assert forall|i: int| 0 <= i < a.len() implies a[i] == b[i] by {
        assert(ra[i] == rb[i]);
        assert(ra[i][0] == rb[i][0] && ra[i][1] == rb[i][1] && ra[i][2] == rb[i][2]);
        text::lemma_utf8_injective(a[i].from, b[i].from);
        text::lemma_utf8_injective(a[i].to, b[i].to);
        text::lemma_utf8_injective(a[i].interface, b[i].interface);
    }
    assert(a =~= b);
}

proof fn lemma_preopens_fit(ps: Seq<claim::PreopenView>)
    requires
        preopens_bytes(ps).len() <= u64::MAX,
    ensures
        forall|i: int|
            0 <= i < ps.len() ==> encode_utf8((#[trigger] ps[i]).guest_path).len() <= u64::MAX,
        ps.len() <= preopens_bytes(ps).len(),
    decreases ps.len(),
{
    if ps.len() > 0 {
        canonical::lemma_le_bytes_len(encode_utf8(ps.last().guest_path).len(), 8);
        lemma_preopens_fit(ps.drop_last());
        assert forall|i: int| 0 <= i < ps.len() implies encode_utf8(
            (#[trigger] ps[i]).guest_path,
        ).len() <= u64::MAX by {
            if i < ps.len() - 1 {
                assert(ps.drop_last()[i] == ps[i]);
            }
        }
    }
}

proof fn lemma_preopens_split(
    a: Seq<claim::PreopenView>,
    b: Seq<claim::PreopenView>,
    x: Seq<u8>,
    y: Seq<u8>,
)
    requires
        a.len() == b.len(),
        preopens_bytes(a).len() <= u64::MAX,
        preopens_bytes(b).len() <= u64::MAX,
        preopens_bytes(a) + x == preopens_bytes(b) + y,
    ensures
        a == b,
        x == y,
    decreases a.len(),
{
    if a.len() == 0 {
        assert(a =~= b);
        assert(preopens_bytes(a) + x =~= x);
        assert(preopens_bytes(b) + y =~= y);
    } else {
        let p = a.last();
        let q = b.last();
        let pf = canonical::le_bytes(p.file_perms as nat, 4);
        let qf = canonical::le_bytes(q.file_perms as nat, 4);
        let pd = canonical::le_bytes(p.dir_perms as nat, 4);
        let qd = canonical::le_bytes(q.dir_perms as nat, 4);
        lemma_preopens_fit(a);
        lemma_preopens_fit(b);
        assert(a[a.len() - 1] == p && b[b.len() - 1] == q);
        assert(preopens_bytes(a) + x =~= preopens_bytes(a.drop_last()) + (preopen_bytes(p) + x));
        assert(preopens_bytes(b) + y =~= preopens_bytes(b.drop_last()) + (preopen_bytes(q) + y));
        lemma_preopens_split(
            a.drop_last(),
            b.drop_last(),
            preopen_bytes(p) + x,
            preopen_bytes(q) + y,
        );
        assert(preopen_bytes(p) + x =~= canonical::prefixed(encode_utf8(p.guest_path)) + (pd + (pf
            + x)));
        assert(preopen_bytes(q) + y =~= canonical::prefixed(encode_utf8(q.guest_path)) + (qd + (qf
            + y)));
        canonical::lemma_prefixed_split(
            encode_utf8(p.guest_path),
            encode_utf8(q.guest_path),
            pd + (pf + x),
            qd + (qf + y),
        );
        canonical::lemma_le_bounds();
        canonical::lemma_number_split(
            p.dir_perms as nat,
            q.dir_perms as nat,
            4,
            pf + x,
            qf + y,
        );
        canonical::lemma_number_split(p.file_perms as nat, q.file_perms as nat, 4, x, y);
        text::lemma_utf8_injective(p.guest_path, q.guest_path);
        assert(a =~= a.drop_last().push(p));
        assert(b =~= b.drop_last().push(q));
    }
}

proof fn lemma_int_split(a: i32, b: i32, x: Seq<u8>, y: Seq<u8>)
    requires
        int_bytes(a) + x == int_bytes(b) + y,
    ensures
        a == b,
        x == y,
{
    canonical::lemma_le_bounds();
    canonical::lemma_number_split((a as u32) as nat, (b as u32) as nat, 4, x, y);
    assert(a as u32 == b as u32 ==> a == b) by (bit_vector);
}

proof fn lemma_flag_split(a: bool, b: bool, x: Seq<u8>, y: Seq<u8>)
    requires
        flag_bytes(a) + x == flag_bytes(b) + y,
    ensures
        a == b,
        x == y,
{
    canonical::lemma_split_at(flag_bytes(a), flag_bytes(b), x, y);
    assert(flag_bytes(a)[0] == flag_bytes(b)[0]);
}

proof fn lemma_grant_tail_injective(
    a: claim::WasiRuntimeGrantView,
    b: claim::WasiRuntimeGrantView,
)
    requires
        grant_tail_bytes(a) == grant_tail_bytes(b),
    ensures
        a.stdin == b.stdin,
        a.stdout == b.stdout,
        a.stderr == b.stderr,
        a.wall_clock == b.wall_clock,
        a.monotonic_clock == b.monotonic_clock,
        a.random == b.random,
{
    let a5 = int_bytes(a.random);
    let b5 = int_bytes(b.random);
    let a4 = flag_bytes(a.monotonic_clock) + a5;
    let b4 = flag_bytes(b.monotonic_clock) + b5;
    let a3 = flag_bytes(a.wall_clock) + a4;
    let b3 = flag_bytes(b.wall_clock) + b4;
    let a2 = int_bytes(a.stderr) + a3;
    let b2 = int_bytes(b.stderr) + b3;
    let a1 = int_bytes(a.stdout) + a2;
    let b1 = int_bytes(b.stdout) + b2;
    canonical::lemma_regroup(
        int_bytes(a.stdin),
        int_bytes(a.stdout),
        int_bytes(a.stderr),
        flag_bytes(a.wall_clock),
        flag_bytes(a.monotonic_clock),
        a5,
    );
    canonical::lemma_regroup(
        int_bytes(b.stdin),
        int_bytes(b.stdout),
        int_bytes(b.stderr),
        flag_bytes(b.wall_clock),
        flag_bytes(b.monotonic_clock),
        b5,
    );
    lemma_int_split(a.stdin, b.stdin, a1, b1);
    lemma_int_split(a.stdout, b.stdout, a2, b2);
    lemma_int_split(a.stderr, b.stderr, a3, b3);
    lemma_flag_split(a.wall_clock, b.wall_clock, a4, b4);
    lemma_flag_split(a.monotonic_clock, b.monotonic_clock, a5, b5);
    assert(a5 + Seq::empty() =~= a5);
    assert(b5 + Seq::empty() =~= b5);
    lemma_int_split(a.random, b.random, Seq::empty(), Seq::empty());
}

/// Two grants that allow the same: they agree up to the order of their
/// directories and of their environment names.
pub open spec fn same_grant(
    a: claim::WasiRuntimeGrantView,
    b: claim::WasiRuntimeGrantView,
) -> bool {
    &&& order::sorted::<Preopen>(a.preopens) == order::sorted::<Preopen>(b.preopens)
    &&& a.network == b.network
    &&& order::sorted::<String>(a.env_names) == order::sorted::<String>(b.env_names)
    &&& a.args == b.args
    &&& a.stdin == b.stdin
    &&& a.stdout == b.stdout
    &&& a.stderr == b.stderr
    &&& a.wall_clock == b.wall_clock
    &&& a.monotonic_clock == b.monotonic_clock
    &&& a.random == b.random
}

proof fn lemma_present_grant_injective(
    a: claim::WasiRuntimeGrantView,
    b: claim::WasiRuntimeGrantView,
)
    requires
        present_grant_bytes(a).len() <= u64::MAX,
        present_grant_bytes(a) == present_grant_bytes(b),
    ensures
        same_grant(a, b),
{
    let ap = order::sorted::<Preopen>(a.preopens);
    let bp = order::sorted::<Preopen>(b.preopens);
    let an = canonical::records_of::<String>(order::sorted::<String>(a.env_names));
    let bn = canonical::records_of::<String>(order::sorted::<String>(b.env_names));
    let ag = canonical::records_of::<String>(a.args);
    let bg = canonical::records_of::<String>(b.args);
    let a4 = canonical::counted(ag) + grant_tail_bytes(a);
    let b4 = canonical::counted(bg) + grant_tail_bytes(b);
    let a3 = canonical::counted(an) + a4;
    let b3 = canonical::counted(bn) + b4;
    let a2 = flag_bytes(a.network) + a3;
    let b2 = flag_bytes(b.network) + b3;
    let a1 = preopens_bytes(ap) + a2;
    let b1 = preopens_bytes(bp) + b2;
    canonical::lemma_regroup(
        canonical::le_bytes(a.preopens.len(), 8),
        preopens_bytes(ap),
        flag_bytes(a.network),
        canonical::counted(an),
        canonical::counted(ag),
        grant_tail_bytes(a),
    );
    canonical::lemma_regroup(
        canonical::le_bytes(b.preopens.len(), 8),
        preopens_bytes(bp),
        flag_bytes(b.network),
        canonical::counted(bn),
        canonical::counted(bg),
        grant_tail_bytes(b),
    );
    assert(ap.len() == a.preopens.len() && bp.len() == b.preopens.len()) by {
        order::lemma_sorted_is_ordered_permutation::<Preopen>(a.preopens);
        order::lemma_sorted_is_ordered_permutation::<Preopen>(b.preopens);
    }
    assert(a1 == b1 && ap.len() == bp.len()) by {
        lemma_preopens_fit(ap);
        lemma_preopens_fit(bp);
        canonical::lemma_le_bounds();
        canonical::lemma_number_split(a.preopens.len(), b.preopens.len(), 8, a1, b1);
    }
    lemma_preopens_split(ap, bp, a2, b2);
    lemma_flag_split(a.network, b.network, a3, b3);
    assert(an == bn && a4 == b4) by {
        canonical::lemma_counted_fits(an, 1);
        canonical::lemma_counted_fits(bn, 1);
        canonical::lemma_counted_split(an, bn, 1, a4, b4);
    }
    assert(ag == bg && grant_tail_bytes(a) == grant_tail_bytes(b)) by {
        canonical::lemma_counted_fits(ag, 1);
        canonical::lemma_counted_fits(bg, 1);
        canonical::lemma_counted_split(ag, bg, 1, grant_tail_bytes(a), grant_tail_bytes(b));
    }
    lemma_same_names(order::sorted::<String>(a.env_names), order::sorted::<String>(b.env_names));
    lemma_same_names(a.args, b.args);
    lemma_grant_tail_injective(a, b);
}

proof fn lemma_grant_injective(
    a: Option<claim::WasiRuntimeGrantView>,
    b: Option<claim::WasiRuntimeGrantView>,
)
    requires
        grant_bytes(a).len() <= u64::MAX,
        grant_bytes(a) == grant_bytes(b),
    ensures
        a is Some <==> b is Some,
        a is Some ==> same_grant(a->0, b->0),
{
    assert(grant_bytes(a)[0] == grant_bytes(b)[0]);
    if let (Some(x), Some(y)) = (a, b) {
        canonical::lemma_split_at(
            seq![1u8],
            seq![1u8],
            present_grant_bytes(x),
            present_grant_bytes(y),
        );
        lemma_present_grant_injective(x, y);
    }
}

proof fn lemma_runtime_split(
    a: claim::WasmRuntimeInfoView,
    b: claim::WasmRuntimeInfoView,
    x: Seq<u8>,
    y: Seq<u8>,
)
    requires
        runtime_bytes(a).len() <= u64::MAX,
        runtime_bytes(b).len() <= u64::MAX,
        runtime_bytes(a) + x == runtime_bytes(b) + y,
    ensures
        a.engine == b.engine,
        a.engine_version == b.engine_version,
        a.wasi_version == b.wasi_version,
        x == y,
{
    let a1 = encode_utf8(a.engine);
    let b1 = encode_utf8(b.engine);
    let a2 = encode_utf8(a.engine_version);
    let b2 = encode_utf8(b.engine_version);
    let a3 = encode_utf8(a.wasi_version);
    let b3 = encode_utf8(b.wasi_version);
    let xs = canonical::prefixed(a2) + (canonical::prefixed(a3) + x);
    let ys = canonical::prefixed(b2) + (canonical::prefixed(b3) + y);
    assert(runtime_bytes(a) + x =~= canonical::prefixed(a1) + xs);
    assert(runtime_bytes(b) + y =~= canonical::prefixed(b1) + ys);
    canonical::lemma_prefixed_split(a1, b1, xs, ys);
    canonical::lemma_prefixed_split(
        a2,
        b2,
        canonical::prefixed(a3) + x,
        canonical::prefixed(b3) + y,
    );
    canonical::lemma_prefixed_split(a3, b3, x, y);
    text::lemma_utf8_injective(a.engine, b.engine);
    text::lemma_utf8_injective(a.engine_version, b.engine_version);
    text::lemma_utf8_injective(a.wasi_version, b.wasi_version);
}

/// The components agree in name, role and digest, one by one.
pub open spec fn same_components(
    a: Seq<claim::ComponentClaimView>,
    b: Seq<claim::ComponentClaimView>,
) -> bool {
    &&& a.len() == b.len()
    &&& forall|i: int|
        0 <= i < a.len() ==> {
            &&& (#[trigger] a[i]).id == b[i].id
            &&& a[i].role == b[i].role
            &&& a[i].digest == b[i].digest
        }
}

/// The granted capabilities agree in interface and component, one by one.
pub open spec fn same_granted(
    a: Seq<claim::GrantedWasiCapabilityView>,
    b: Seq<claim::GrantedWasiCapabilityView>,
) -> bool {
    &&& a.len() == b.len()
    &&& forall|i: int|
        0 <= i < a.len() ==> {
            &&& (#[trigger] a[i]).interface == b[i].interface
            &&& a[i].component_id == b[i].component_id
        }
}

proof fn lemma_same_component_records(
    a: Seq<claim::ComponentClaimView>,
    b: Seq<claim::ComponentClaimView>,
)
    requires
        canonical::records_of::<ComponentClaim>(a) == canonical::records_of::<ComponentClaim>(b),
    ensures
        same_components(a, b),
{
    let ra = canonical::records_of::<ComponentClaim>(a);
    let rb = canonical::records_of::<ComponentClaim>(b);
    assert(ra.len() == a.len());
    assert(rb.len() == b.len());
    assert forall|i: int| 0 <= i < a.len() implies {
        &&& (#[trigger] a[i]).id == b[i].id
        &&& a[i].role == b[i].role
        &&& a[i].digest == b[i].digest
    } by {
        assert(ra[i][0] == rb[i][0] && ra[i][1] == rb[i][1] && ra[i][2] == rb[i][2]);
        text::lemma_utf8_injective(a[i].id, b[i].id);
        text::lemma_utf8_injective(a[i].role, b[i].role);
    }
}

proof fn lemma_same_granted_records(
    a: Seq<claim::GrantedWasiCapabilityView>,
    b: Seq<claim::GrantedWasiCapabilityView>,
)
    requires
        canonical::records_of::<GrantedWasiCapability>(a) == canonical::records_of::<
            GrantedWasiCapability,
        >(b),
    ensures
        same_granted(a, b),
{
    let ra = canonical::records_of::<GrantedWasiCapability>(a);
    let rb = canonical::records_of::<GrantedWasiCapability>(b);
    assert(ra.len() == a.len());
    assert(rb.len() == b.len());
    assert forall|i: int| 0 <= i < a.len() implies {
        &&& (#[trigger] a[i]).interface == b[i].interface
        &&& a[i].component_id == b[i].component_id
    } by {
        assert(ra[i][0] == rb[i][0] && ra[i][1] == rb[i][1]);
        text::lemma_utf8_injective(a[i].interface, b[i].interface);
        text::lemma_utf8_injective(a[i].component_id, b[i].component_id);
    }
}

proof fn lemma_runtime_and_grant(
    info1: claim::WasmRuntimeInfoView,
    grant1: Option<claim::WasiRuntimeGrantView>,
    info2: claim::WasmRuntimeInfoView,
    grant2: Option<claim::WasiRuntimeGrantView>,
)
    requires
        runtime_bytes(info1).len() + grant_bytes(grant1).len() <= u64::MAX,
        runtime_bytes(info2).len() + grant_bytes(grant2).len() <= u64::MAX,
        runtime_bytes(info1) + grant_bytes(grant1) == runtime_bytes(info2) + grant_bytes(grant2),
    ensures
        info1.engine == info2.engine,
        info1.engine_version == info2.engine_version,
        info1.wasi_version == info2.wasi_version,
        grant1 is Some <==> grant2 is Some,
        grant1 is Some ==> same_grant(grant1->0, grant2->0),
{
    lemma_runtime_split(info1, info2, grant_bytes(grant1), grant_bytes(grant2));
    lemma_grant_injective(grant1, grant2);
}

/// Every record has `k` parts.
spec fn uniform(items: Seq<Seq<Seq<u8>>>, k: nat) -> bool {
    forall|i: int| 0 <= i < items.len() ==> (#[trigger] items[i]).len() == k
}

proof fn lemma_uniform(
    components: Seq<claim::ComponentClaimView>,
    graph: claim::CompositionGraphView,
    granted: Seq<claim::GrantedWasiCapabilityView>,
)
    ensures
        uniform(canonical::records_of::<ComponentClaim>(components), 3),
        uniform(canonical::records_of::<String>(graph.nodes), 1),
        uniform(canonical::records_of::<Edge>(graph.edges), 3),
        uniform(canonical::records_of::<GrantedWasiCapability>(granted), 2),
{
}

/// The lists of a preimage can be read back, where the number of components is
/// known.
proof fn lemma_lists_split(
    tag: Seq<u8>,
    ac: Seq<Seq<Seq<u8>>>,
    an: Seq<Seq<Seq<u8>>>,
    ae: Seq<Seq<Seq<u8>>>,
    ag: Seq<Seq<Seq<u8>>>,
    ar: Seq<u8>,
    aw: Seq<u8>,
    bc: Seq<Seq<Seq<u8>>>,
    bn: Seq<Seq<Seq<u8>>>,
    be: Seq<Seq<Seq<u8>>>,
    bg: Seq<Seq<Seq<u8>>>,
    br: Seq<u8>,
    bw: Seq<u8>,
)
    requires
        ac.len() == bc.len(),
        uniform(ac, 3) && uniform(an, 1) && uniform(ae, 3) && uniform(ag, 2),
        uniform(bc, 3) && uniform(bn, 1) && uniform(be, 3) && uniform(bg, 2),
        assembled(tag, ac, an, ae, ag, ar, aw).len() <= u64::MAX,
        assembled(tag, ac, an, ae, ag, ar, aw) == assembled(tag, bc, bn, be, bg, br, bw),
    ensures
        ac == bc,
        an == bn,
        ae == be,
        ag == bg,
        ar + aw == br + bw,
        ar.len() + aw.len() <= u64::MAX,
        br.len() + bw.len() <= u64::MAX,
{
    let a3 = canonical::counted(ag) + (ar + aw);
    let b3 = canonical::counted(bg) + (br + bw);
    let a2 = canonical::counted(ae) + a3;
    let b2 = canonical::counted(be) + b3;
    let a1 = canonical::counted(an) + a2;
    let b1 = canonical::counted(bn) + b2;
    assert(canonical::records(ac) + a1 == canonical::records(bc) + b1 && (canonical::records(ac)
        + a1).len() <= u64::MAX) by {
        lemma_assembled(tag, ac, an, ae, ag, ar, aw);
        lemma_assembled(tag, bc, bn, be, bg, br, bw);
        canonical::lemma_split_at(
            tag,
            tag,
            canonical::records(ac) + a1,
            canonical::records(bc) + b1,
        );
    }
    assert(ac == bc && a1 == b1) by {
        canonical::lemma_records_fit(ac, 3);
        canonical::lemma_records_fit(bc, 3);
        canonical::lemma_records_split(ac, bc, 3, a1, b1);
    }
    assert(an == bn && a2 == b2) by {
        canonical::lemma_counted_fits(an, 1);
        canonical::lemma_counted_fits(bn, 1);
        canonical::lemma_counted_split(an, bn, 1, a2, b2);
    }
    assert(ae == be && a3 == b3) by {
        canonical::lemma_counted_fits(ae, 3);
        canonical::lemma_counted_fits(be, 3);
        canonical::lemma_counted_split(ae, be, 3, a3, b3);
    }
    assert(ag == bg && ar + aw == br + bw) by {
        canonical::lemma_counted_fits(ag, 2);
        canonical::lemma_counted_fits(bg, 2);
        canonical::lemma_counted_split(ag, bg, 2, ar + aw, br + bw);
    }
}

/// A text whose encoding holds no zero byte.
pub open spec fn is_plain(s: Seq<char>) -> bool {
    !encode_utf8(s).contains(0)
}

/// The names of a composition are plain, and its graph has nodes.
pub open spec fn plainly_named(
    components: Seq<claim::ComponentClaimView>,
    graph: claim::CompositionGraphView,
) -> bool {
    &&& graph.nodes.len() > 0
    &&& forall|i: int| 0 <= i < components.len() ==> is_plain((#[trigger] components[i]).id)
    &&& forall|i: int| 0 <= i < graph.nodes.len() ==> is_plain(#[trigger] graph.nodes[i])
}

/// Where one list of components is read off another, the rest begins with the
/// components that are left over.
proof fn lemma_components_left_over(
    ac: Seq<Seq<Seq<u8>>>,
    a1: Seq<u8>,
    bc: Seq<Seq<Seq<u8>>>,
    b1: Seq<u8>,
)
    requires
        uniform(ac, 3) && uniform(bc, 3),
        ac.len() <= bc.len(),
        (canonical::records(ac) + a1).len() <= u64::MAX,
        canonical::records(ac) + a1 == canonical::records(bc) + b1,
    ensures
        a1 == canonical::records(bc.skip(ac.len() as int)) + b1,
{
    let n = ac.len() as int;
    let head = bc.take(n);
    let more = canonical::records(bc.skip(n)) + b1;
    canonical::lemma_records_apart(bc, n);
    assert(canonical::records(bc) + b1 =~= canonical::records(head) + more);
    canonical::lemma_records_fit(ac, 3);
    assert(uniform(head, 3));
    canonical::lemma_records_fit(head, 3);
    canonical::lemma_records_split(ac, head, 3, a1, more);
}

/// A counted list of names does not begin like a component.
proof fn lemma_nodes_are_no_component(
    an: Seq<Seq<Seq<u8>>>,
    a2: Seq<u8>,
    more: Seq<Seq<Seq<u8>>>,
    b1: Seq<u8>,
)
    requires
        uniform(an, 1) && uniform(more, 3),
        an.len() > 0,
        more.len() > 0,
        !an[0][0].contains(0),
        !more[0][0].contains(0),
        (canonical::counted(an) + a2).len() < canonical::le_bound(7),
    ensures
        canonical::counted(an) + a2 != canonical::records(more) + b1,
{
    let r = more[0];
    let item = an[0][0];
    let tail = canonical::records(more.skip(1)) + b1;
    let x = canonical::prefixed(r[2]) + tail;
    let y = canonical::records(an.skip(1)) + a2;
    let left = canonical::prefixed(r[0]) + (canonical::prefixed(r[1]) + x);
    let right = canonical::le_bytes(an.len(), 8) + (canonical::prefixed(item) + y);
    canonical::lemma_le_bounds();
    assert(canonical::records(more) + b1 == left) by {
        canonical::lemma_records_apart(more, 1);
        lemma_only_record(more);
        lemma_three_parts(r);
        assert(canonical::records(more) + b1 =~= left);
    }
    assert(canonical::counted(an) + a2 == right) by {
        canonical::lemma_records_apart(an, 1);
        lemma_only_record(an);
        lemma_one_part(an[0]);
        assert(canonical::counted(an) + a2 =~= right);
    }
    if left == right {
        assert(an.len() <= canonical::records(an).len()) by {
            canonical::lemma_records_fit(an, 1);
        }
        canonical::lemma_record_is_no_counted_list(r[0], r[1], x, an.len(), item, y);
    }
}

/// A preimage cannot be read as one with more components.
proof fn lemma_no_more_components(
    tag: Seq<u8>,
    ac: Seq<Seq<Seq<u8>>>,
    an: Seq<Seq<Seq<u8>>>,
    ae: Seq<Seq<Seq<u8>>>,
    ag: Seq<Seq<Seq<u8>>>,
    ar: Seq<u8>,
    aw: Seq<u8>,
    bc: Seq<Seq<Seq<u8>>>,
    bn: Seq<Seq<Seq<u8>>>,
    be: Seq<Seq<Seq<u8>>>,
    bg: Seq<Seq<Seq<u8>>>,
    br: Seq<u8>,
    bw: Seq<u8>,
)
    requires
        uniform(ac, 3) && uniform(an, 1) && uniform(bc, 3),
        an.len() > 0,
        !an[0][0].contains(0),
        forall|i: int| 0 <= i < bc.len() ==> !(#[trigger] bc[i])[0].contains(0),
        assembled(tag, ac, an, ae, ag, ar, aw).len() < canonical::le_bound(7),
        assembled(tag, ac, an, ae, ag, ar, aw) == assembled(tag, bc, bn, be, bg, br, bw),
    ensures
        bc.len() <= ac.len(),
{
    if bc.len() > ac.len() {
        let a2 = canonical::counted(ae) + (canonical::counted(ag) + (ar + aw));
        let a1 = canonical::counted(an) + a2;
        let b1 = canonical::counted(bn) + (canonical::counted(be) + (canonical::counted(bg) + (br
            + bw)));
        let left = canonical::records(ac) + a1;
        let right = canonical::records(bc) + b1;
        assert(left == right && left.len() < canonical::le_bound(7)) by {
            lemma_assembled(tag, ac, an, ae, ag, ar, aw);
            lemma_assembled(tag, bc, bn, be, bg, br, bw);
            canonical::lemma_split_at(tag, tag, left, right);
        }
        canonical::lemma_le_bounds();
        lemma_components_left_over(ac, a1, bc, b1);
        let more = bc.skip(ac.len() as int);
        assert(uniform(more, 3)) by {
            assert forall|i: int| 0 <= i < more.len() implies (#[trigger] more[i]).len() == 3 by {
                assert(more[i] == bc[i + ac.len()]);
            }
        }
        assert(more[0] == bc[ac.len() as int]);
        lemma_nodes_are_no_component(an, a2, more, b1);
    }
}

/// The parts of a preimage, from the left and from the right.
proof fn lemma_assembled(
    tag: Seq<u8>,
    c: Seq<Seq<Seq<u8>>>,
    n: Seq<Seq<Seq<u8>>>,
    e: Seq<Seq<Seq<u8>>>,
    g: Seq<Seq<Seq<u8>>>,
    r: Seq<u8>,
    w: Seq<u8>,
)
    ensures
        assembled(tag, c, n, e, g, r, w) == tag + (canonical::records(c) + (canonical::counted(n) + (
        canonical::counted(e) + (canonical::counted(g) + (r + w))))),
{
    reveal(assembled);
    let rest = canonical::counted(n) + (canonical::counted(e) + (canonical::counted(g) + (r + w)));
    canonical::lemma_regroup(
        tag + canonical::records(c),
        canonical::counted(n),
        canonical::counted(e),
        canonical::counted(g),
        r,
        w,
    );
    assert(tag + canonical::records(c) + rest =~= tag + (canonical::records(c) + rest));
}

/// The names in the records of a plainly named composition hold no zero byte.
proof fn lemma_plain_records(
    components: Seq<claim::ComponentClaimView>,
    graph: claim::CompositionGraphView,
)
    requires
        plainly_named(components, graph),
    ensures
        ({
            let records = canonical::records_of::<ComponentClaim>(
                order::sorted::<ComponentClaim>(components),
            );
            let nodes = canonical::records_of::<String>(graph.nodes);
            &&& nodes.len() > 0
            &&& !nodes[0][0].contains(0)
            &&& forall|i: int| 0 <= i < records.len() ==> !(#[trigger] records[i])[0].contains(0)
        }),
{
    broadcast use vstd::seq_lib::group_to_multiset_ensures;

    let sorted = order::sorted::<ComponentClaim>(components);
    order::lemma_sorted_is_ordered_permutation::<ComponentClaim>(components);
    let records = canonical::records_of::<ComponentClaim>(sorted);
    assert(is_plain(graph.nodes[0]));
    assert forall|i: int| 0 <= i < records.len() implies !(#[trigger] records[i])[0].contains(0) by {
        assert(sorted.contains(sorted[i]));
        assert(sorted.to_multiset().count(sorted[i]) > 0);
        assert(components.contains(sorted[i]));
        let j = choose|j: int| 0 <= j < components.len() && components[j] == sorted[i];
        assert(is_plain(components[j].id));
    }
}

proof fn lemma_only_record(items: Seq<Seq<Seq<u8>>>)
    requires
        items.len() > 0,
    ensures
        canonical::records(items.take(1)) == canonical::record(items[0]),
{
    let one = items.take(1);
    assert(one.drop_last() =~= Seq::empty());
    assert(canonical::records(one.drop_last()) =~= Seq::empty());
    assert(canonical::records(one) =~= canonical::record(items[0]));
}

proof fn lemma_one_part(r: Seq<Seq<u8>>)
    requires
        r.len() == 1,
    ensures
        canonical::record(r) == canonical::prefixed(r[0]),
{
    assert(r.drop_last() =~= Seq::empty());
    assert(canonical::record(r.drop_last()) =~= Seq::empty());
    assert(canonical::record(r) =~= canonical::prefixed(r[0]));
}

proof fn lemma_three_parts(r: Seq<Seq<u8>>)
    requires
        r.len() == 3,
    ensures
        canonical::record(r) == canonical::prefixed(r[0]) + canonical::prefixed(r[1])
            + canonical::prefixed(r[2]),
{
    let two = r.drop_last();
    let one = two.drop_last();
    assert(two.last() == r[1]);
    assert(one[0] == r[0]);
    lemma_one_part(one);
    assert(canonical::record(two) == canonical::record(one) + canonical::prefixed(r[1]));
    assert(canonical::record(r) == canonical::record(two) + canonical::prefixed(r[2]));
}

/// The preimage determines the composition. Two compositions with the same
/// preimage agree in the components sorted by id, the graph, the granted
/// capabilities, the engine and the grant.
///
/// The list of components is the one part that does not stand behind its length.
/// So the law asks that the compositions have as many components each, or that
/// their names hold no zero byte (and that no length takes more than seven bytes to
/// write down).
pub proof fn law_preimage_determines_composition(
    components1: Seq<claim::ComponentClaimView>,
    graph1: claim::CompositionGraphView,
    granted1: Seq<claim::GrantedWasiCapabilityView>,
    info1: claim::WasmRuntimeInfoView,
    grant1: Option<claim::WasiRuntimeGrantView>,
    components2: Seq<claim::ComponentClaimView>,
    graph2: claim::CompositionGraphView,
    granted2: Seq<claim::GrantedWasiCapabilityView>,
    info2: claim::WasmRuntimeInfoView,
    grant2: Option<claim::WasiRuntimeGrantView>,
)
    requires
        components1.len() == components2.len() || (plainly_named(components1, graph1)
            && plainly_named(components2, graph2) && preimage(
            components1,
            graph1,
            granted1,
            info1,
            grant1,
        ).len() < 0x100_0000_0000_0000),
        preimage(components1, graph1, granted1, info1, grant1).len() <= u64::MAX,
        preimage(components1, graph1, granted1, info1, grant1) == preimage(
            components2,
            graph2,
            granted2,
            info2,
            grant2,
        ),
    ensures
        same_components(
            order::sorted::<ComponentClaim>(components1),
            order::sorted::<ComponentClaim>(components2),
        ),
        graph1 == graph2,
        same_granted(granted1, granted2),
        info1.engine == info2.engine,
        info1.engine_version == info2.engine_version,
        info1.wasi_version == info2.wasi_version,
        grant1 is Some <==> grant2 is Some,
        grant1 is Some ==> same_grant(grant1->0, grant2->0),
{
    let tag = encode_utf8(COMMITMENT_TAG@);
    let ac = canonical::records_of::<ComponentClaim>(order::sorted::<ComponentClaim>(components1));
    let bc = canonical::records_of::<ComponentClaim>(order::sorted::<ComponentClaim>(components2));
    let an = canonical::records_of::<String>(graph1.nodes);
    let bn = canonical::records_of::<String>(graph2.nodes);
    let ae = canonical::records_of::<Edge>(graph1.edges);
    let be = canonical::records_of::<Edge>(graph2.edges);
    let ag = canonical::records_of::<GrantedWasiCapability>(granted1);
    let bg = canonical::records_of::<GrantedWasiCapability>(granted2);
    let ar = runtime_bytes(info1);
    let br = runtime_bytes(info2);
    let aw = grant_bytes(grant1);
    let bw = grant_bytes(grant2);
    lemma_uniform(order::sorted::<ComponentClaim>(components1), graph1, granted1);
    lemma_uniform(order::sorted::<ComponentClaim>(components2), graph2, granted2);
    assert(ac.len() == bc.len()) by {
        order::lemma_sorted_is_ordered_permutation::<ComponentClaim>(components1);
        order::lemma_sorted_is_ordered_permutation::<ComponentClaim>(components2);
        if components1.len() != components2.len() {
            canonical::lemma_le_bounds();
            lemma_plain_records(components1, graph1);
            lemma_plain_records(components2, graph2);
            lemma_no_more_components(tag, ac, an, ae, ag, ar, aw, bc, bn, be, bg, br, bw);
            lemma_no_more_components(tag, bc, bn, be, bg, br, bw, ac, an, ae, ag, ar, aw);
        }
    }
    lemma_lists_split(tag, ac, an, ae, ag, ar, aw, bc, bn, be, bg, br, bw);
    lemma_runtime_and_grant(info1, grant1, info2, grant2);
    lemma_same_component_records(
        order::sorted::<ComponentClaim>(components1),
        order::sorted::<ComponentClaim>(components2),
    );
    assert(graph1 == graph2) by {
        lemma_same_names(graph1.nodes, graph2.nodes);
        lemma_same_edges(graph1.edges, graph2.edges);
    }
    lemma_same_granted_records(granted1, granted2);
}

/// How numbers and flags are written: a signed number in two's complement, four bytes,
/// least significant first; a flag as 1 or 0; and a presence byte of 0 for no grant.
pub proof fn law_numbers_and_flags(n: i32)
    ensures
        n >= 0 ==> int_bytes(n) == canonical::le_bytes(n as nat, 4),
        n < 0 ==> int_bytes(n) == canonical::le_bytes((n + 0x1_0000_0000) as nat, 4),
        flag_bytes(true) == seq![1u8],
        flag_bytes(false) == seq![0u8],
        grant_bytes(None) == seq![0u8],
{
    assert(n >= 0 ==> (n as u32) == n) by (bit_vector);
    assert(n < 0 ==> (n as u32) == n + 0x1_0000_0000) by (bit_vector);
}

/// What a record of the commitment is made of: a component of its id, its role and its
/// digest; an edge of its producer, its consumer and its interface; a capability of its
/// interface and its component.
#[verifier::rlimit(40)]
pub proof fn law_records_of_the_commitment(
    component: claim::ComponentClaimView,
    edge: claim::EdgeView,
    capability: claim::GrantedWasiCapabilityView,
)
    ensures
        canonical::record(ComponentClaim::record_of(component)) == canonical::prefixed(
            encode_utf8(component.id),
        ) + canonical::prefixed(encode_utf8(component.role)) + canonical::prefixed(
            component.digest,
        ),
        canonical::record(Edge::record_of(edge)) == canonical::prefixed(encode_utf8(edge.from))
            + canonical::prefixed(encode_utf8(edge.to)) + canonical::prefixed(
            encode_utf8(edge.interface),
        ),
        canonical::record(GrantedWasiCapability::record_of(capability)) == canonical::prefixed(
            encode_utf8(capability.interface),
        ) + canonical::prefixed(encode_utf8(capability.component_id)),
{
    let none = Seq::<Seq<u8>>::empty();
    let c = ComponentClaim::record_of(component);
    canonical::lemma_record_push(none, c[0]);
    canonical::lemma_record_push(seq![c[0]], c[1]);
    canonical::lemma_record_push(seq![c[0], c[1]], c[2]);
    assert(none.push(c[0]) =~= seq![c[0]]);
    assert(seq![c[0]].push(c[1]) =~= seq![c[0], c[1]]);
    assert(seq![c[0], c[1]].push(c[2]) =~= c);
    assert(canonical::record(c) =~= canonical::prefixed(c[0]) + canonical::prefixed(c[1])
        + canonical::prefixed(c[2]));
    let e = Edge::record_of(edge);
    canonical::lemma_record_push(none, e[0]);
    canonical::lemma_record_push(seq![e[0]], e[1]);
    canonical::lemma_record_push(seq![e[0], e[1]], e[2]);
    assert(none.push(e[0]) =~= seq![e[0]]);
    assert(seq![e[0]].push(e[1]) =~= seq![e[0], e[1]]);
    assert(seq![e[0], e[1]].push(e[2]) =~= e);
    assert(canonical::record(e) =~= canonical::prefixed(e[0]) + canonical::prefixed(e[1])
        + canonical::prefixed(e[2]));
    let g = GrantedWasiCapability::record_of(capability);
    canonical::lemma_record_push(none, g[0]);
    canonical::lemma_record_push(seq![g[0]], g[1]);
    assert(none.push(g[0]) =~= seq![g[0]]);
    assert(seq![g[0]].push(g[1]) =~= g);
    assert(canonical::record(g) =~= canonical::prefixed(g[0]) + canonical::prefixed(g[1]));
}

/// The layout of what is hashed: the tag `cfc-wasm-commit-v1`, the components, the
/// nodes, the edges and the capabilities behind their numbers, the engine, its version
/// and the version of WASI, each behind its length, and last the grant.
#[verifier::rlimit(40)]
pub proof fn law_layout_of_the_preimage(
    components: Seq<claim::ComponentClaimView>,
    graph: claim::CompositionGraphView,
    granted: Seq<claim::GrantedWasiCapabilityView>,
    info: claim::WasmRuntimeInfoView,
    grant: Option<claim::WasiRuntimeGrantView>,
)
    ensures
        preimage(components, graph, granted, info, grant) == encode_utf8("cfc-wasm-commit-v1"@)
            + canonical::records(
            canonical::records_of::<ComponentClaim>(order::sorted::<ComponentClaim>(components)),
        ) + (canonical::le_bytes(graph.nodes.len(), 8) + canonical::records(
            canonical::records_of::<String>(graph.nodes),
        )) + (canonical::le_bytes(graph.edges.len(), 8) + canonical::records(
            canonical::records_of::<Edge>(graph.edges),
        )) + (canonical::le_bytes(granted.len(), 8) + canonical::records(
            canonical::records_of::<GrantedWasiCapability>(granted),
        )) + (canonical::prefixed(encode_utf8(info.engine)) + canonical::prefixed(
            encode_utf8(info.engine_version),
        ) + canonical::prefixed(encode_utf8(info.wasi_version))) + grant_bytes(grant),
        canonical::records_of::<Edge>(graph.edges).len() == graph.edges.len(),
        forall|i: int|
            0 <= i < graph.edges.len() ==> (#[trigger] canonical::records_of::<Edge>(
                graph.edges,
            )[i]) == Edge::record_of(graph.edges[i]),
{
    reveal(assembled);
}

/// The layout of a grant: its directories in order of their paths, each with both
/// permission words, behind their number; the network; the names of the environment, in
/// order, and the arguments, as they are, behind their numbers; the three streams, the
/// two clocks and the random numbers.
pub proof fn law_layout_of_a_grant(g: claim::WasiRuntimeGrantView)
    ensures
        grant_bytes(Some(g)) == seq![1u8] + (canonical::le_bytes(g.preopens.len(), 8)
            + preopens_bytes(order::sorted::<Preopen>(g.preopens)) + seq![
            if g.network {
                1u8
            } else {
                0u8
            },
        ] + canonical::counted(
            canonical::records_of::<String>(order::sorted::<String>(g.env_names)),
        ) + canonical::counted(canonical::records_of::<String>(g.args)) + (int_bytes(g.stdin)
            + int_bytes(g.stdout) + int_bytes(g.stderr) + flag_bytes(g.wall_clock) + flag_bytes(
            g.monotonic_clock,
        ) + int_bytes(g.random))),
{
}

/// Directory grants are written one after the other, each as its path behind its length
/// and then its permissions on directories and on files.
pub proof fn law_directories_follow_one_another(
    ps: Seq<claim::PreopenView>,
    p: claim::PreopenView,
)
    ensures
        preopens_bytes(Seq::empty()) == Seq::<u8>::empty(),
        preopens_bytes(ps.push(p)) == preopens_bytes(ps) + (canonical::prefixed(
            encode_utf8(p.guest_path),
        ) + canonical::le_bytes(p.dir_perms as nat, 4) + canonical::le_bytes(
            p.file_perms as nat,
            4,
        )),
{
    assert(ps.push(p).drop_last() =~= ps);
}

/// The commitment does not depend on the order in which components, directories and
/// environment names are listed, where their names tell them apart. That of the
/// arguments, which are positional, is kept.
#[verifier::rlimit(40)]
pub proof fn law_commitment_ignores_listing_order(
    c1: Seq<claim::ComponentClaimView>,
    c2: Seq<claim::ComponentClaimView>,
    graph: claim::CompositionGraphView,
    granted: Seq<claim::GrantedWasiCapabilityView>,
    info: claim::WasmRuntimeInfoView,
    g1: claim::WasiRuntimeGrantView,
    g2: claim::WasiRuntimeGrantView,
)
    requires
        c1.to_multiset() == c2.to_multiset(),
        order::keys_determine::<ComponentClaim>(c1),
        g1.preopens.to_multiset() == g2.preopens.to_multiset(),
        order::keys_determine::<Preopen>(g1.preopens),
        g1.env_names.to_multiset() == g2.env_names.to_multiset(),
        g1 == (claim::WasiRuntimeGrantView {
            preopens: g1.preopens,
            env_names: g1.env_names,
            ..g2
        }),
    ensures
        preimage(c1, graph, granted, info, Some(g1)) == preimage(
            c2,
            graph,
            granted,
            info,
            Some(g2),
        ),
{
    order::lemma_sorted_is_canonical::<ComponentClaim>(c1, c2);
    order::lemma_sorted_is_canonical::<Preopen>(g1.preopens, g2.preopens);
    order::lemma_sorted_is_ordered_permutation::<Preopen>(g1.preopens);
    order::lemma_sorted_is_ordered_permutation::<Preopen>(g2.preopens);
    let names = g1.env_names;
    assert forall|i: int, j: int|
        0 <= i < names.len() && 0 <= j < names.len() && String::key_of(#[trigger] names[i])
            == String::key_of(#[trigger] names[j]) implies names[i] == names[j] by {
        assert(String::key_of(names[i])[0] == String::key_of(names[j])[0]);
        text::lemma_utf8_injective(names[i], names[j]);
    }
    order::lemma_sorted_is_canonical::<String>(g1.env_names, g2.env_names);
}

/// Components are hashed in byte-wise order of their ids, directories in that of their
/// paths; none is left out.
pub proof fn law_hashed_in_order_of_names(
    components: Seq<claim::ComponentClaimView>,
    preopens: Seq<claim::PreopenView>,
    i: int,
    j: int,
)
    requires
        0 <= i < j,
    ensures
        order::sorted::<ComponentClaim>(components).to_multiset() == components.to_multiset(),
        j < components.len() ==> !order::bytes_lt(
            encode_utf8(order::sorted::<ComponentClaim>(components)[j].id),
            encode_utf8(order::sorted::<ComponentClaim>(components)[i].id),
        ),
        order::sorted::<Preopen>(preopens).to_multiset() == preopens.to_multiset(),
        j < preopens.len() ==> !order::bytes_lt(
            encode_utf8(order::sorted::<Preopen>(preopens)[j].guest_path),
            encode_utf8(order::sorted::<Preopen>(preopens)[i].guest_path),
        ),
{
    order::lemma_sorted_is_ordered_permutation::<ComponentClaim>(components);
    order::lemma_sorted_is_ordered_permutation::<Preopen>(preopens);
    if j < components.len() {
        let a = ComponentClaim::key_of(order::sorted::<ComponentClaim>(components)[i]);
        let b = ComponentClaim::key_of(order::sorted::<ComponentClaim>(components)[j]);
        order::lemma_bytes_lt_total(a[0], b[0]);
        if a[0] != b[0] {
            assert(a.take(0) =~= b.take(0));
            order::law_keys_are_ordered_by_the_first_difference(b, a, 0);
        }
    }
    if j < preopens.len() {
        let a = Preopen::key_of(order::sorted::<Preopen>(preopens)[i]);
        let b = Preopen::key_of(order::sorted::<Preopen>(preopens)[j]);
        order::lemma_bytes_lt_total(a[0], b[0]);
        if a[0] != b[0] {
            assert(a.take(0) =~= b.take(0));
            order::law_keys_are_ordered_by_the_first_difference(b, a, 0);
        }
    }
}

} // verus!
