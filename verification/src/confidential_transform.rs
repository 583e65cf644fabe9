//! The ConfidentialTransform base for wasm workloads.
//!
//! It drives a wasm [`TransformSession`] over the session protocol. The wasm side
//! is the business logic; this side is the shared plumbing: it decrypts what is
//! written, hands the guest plaintext, and answers with what the guest emits.

use crate::bundle;
use crate::bundle::{lookup, BundleFiles};
use crate::capability;
use crate::capability::{derive_claim_from_loaded, LoadedComponent};
use crate::commitment;
use crate::compiled;
use crate::engine;
use crate::engine::{CompiledComponent, WasmEngine};
use crate::hash;
use crate::message;
use crate::order;
use crate::proto::claim;
use crate::proto::claim::{Edge, Enforcement, WasmCapabilityClaim};
use crate::proto::config;
use crate::proto::config::WasmWorkloadConfig;
use crate::protocol;
use crate::protocol::{
    BlobMetadata, CommitResponse, CompressionType, ConfigureRequest, ConfigureResponse,
    EncryptionMetadata, FinalizeResponse, ReadResponse, RequestKind, ResponseKind, RpcStatus,
    SessionRequest, SessionResponse, Unencrypted, WriteFinishedResponse, WriteRequest,
};
use crate::text;
use crate::transform_crypto;
use crate::transform_crypto::{DecryptError, TransformKeys};
use crate::transform_session;
use crate::transform_session::{
    session_wasi_grant, EmittedBlob, SessionError, TransformSession, SESSION_IFACE,
};
use crate::wasi;
use crate::wasm_runtime;
use crate::wire;
use vstd::prelude::*;
use vstd::utf8::*;

verus! {

/// Why a request was refused.
#[derive(Debug)]
pub enum TransformError {
    /// The request asks for nothing.
    NoKind,
    /// The blob is encrypted, and no keys were released.
    NoKeys,
    /// The blob could not be decrypted.
    Decrypt(DecryptError),
    /// The guest failed.
    Session(SessionError),
}

// ---------------------------------------------------------------------------
// What is written
// ---------------------------------------------------------------------------

/// How the blob of a write is encrypted, where that is said.
pub open spec fn written_encryption(request: WriteRequest) -> Option<protocol::EncryptionView> {
    match request.first_request_metadata {
        None => None,
        Some(metadata) => metadata@.encryption,
    }
}

/// Why a write holds no plaintext for the guest.
pub enum PlaintextError {
    NoKeys,
    Decrypt(DecryptError),
}

/// The plaintext of a write: the data itself, unless the blob is encrypted; then
/// what the released keys open it to.
pub open spec fn written_plaintext(
    request: WriteRequest,
    keys: Option<Seq<transform_crypto::DecryptionKeyView>>,
) -> Result<Seq<u8>, PlaintextError> {
    match written_encryption(request) {
        None | Some(protocol::EncryptionView::Unencrypted { .. }) => Ok(request.data@),
        Some(protocol::EncryptionView::HpkePlusAead(metadata)) => match keys {
            None => Err(PlaintextError::NoKeys),
            Some(keys) => match transform_crypto::blob_opened(keys, metadata, request.data@) {
                Ok(plaintext) => Ok(plaintext),
                Err(e) => Err(PlaintextError::Decrypt(e)),
            },
        },
    }
}

/// The error that a refused write is answered with.
pub open spec fn refusal(e: PlaintextError) -> TransformError {
    match e {
        PlaintextError::NoKeys => TransformError::NoKeys,
        PlaintextError::Decrypt(e) => TransformError::Decrypt(e),
    }
}

/// The released keys, as far as there are any.
pub open spec fn keys_view(keys: Option<TransformKeys>) -> Option<
    Seq<transform_crypto::DecryptionKeyView>,
> {
    match keys {
        Some(keys) => Some(keys@),
        None => None,
    }
}

/// Extracts the plaintext bytes of a write.
pub fn plaintext_data(request: &WriteRequest, keys: &Option<TransformKeys>) -> (r: Result<
    Vec<u8>,
    TransformError,
>)
    ensures
        match written_plaintext(*request, keys_view(*keys)) {
            Ok(plaintext) => r matches Ok(p) && p@ == plaintext,
            Err(e) => r == Err::<Vec<u8>, TransformError>(refusal(e)),
        },
{
    if let Some(metadata) = &request.first_request_metadata {
        if let Some(EncryptionMetadata::HpkePlusAeadData(sealed)) = &metadata.encryption_metadata {
            return match keys {
                Some(keys) => match keys.decrypt_blob(sealed, request.data.as_slice()) {
                    Ok(plaintext) => Ok(plaintext),
                    Err(e) => Err(TransformError::Decrypt(e)),
                },
                None => Err(TransformError::NoKeys),
            };
        }
    }
    Ok(vstd::slice::slice_to_vec(request.data.as_slice()))
}

// ---------------------------------------------------------------------------
// What is answered
// ---------------------------------------------------------------------------

/// The status of success.
pub open spec fn ok_view() -> protocol::RpcStatusView {
    protocol::RpcStatusView { code: 0, message: Seq::empty() }
}

fn ok_status() -> (s: RpcStatus)
    ensures
        s@ == ok_view(),
{
    RpcStatus { code: 0, message: String::new() }
}

fn wrap(kind: ResponseKind) -> (r: SessionResponse)
    ensures
        r.kind == Some(kind),
{
    SessionResponse { kind: Some(kind) }
}

/// A single response.
fn only(kind: ResponseKind) -> (r: Vec<SessionResponse>)
    ensures
        order::views(r@) == seq![(SessionResponse { kind: Some(kind) })@],
{
    let mut responses: Vec<SessionResponse> = Vec::new();
    responses.push(wrap(kind));
    assert(order::views(responses@) =~= seq![(SessionResponse { kind: Some(kind) })@]);
    responses
}

/// What is said of a blob that goes out in plaintext.
pub open spec fn plaintext_metadata(
    blob: transform_session::EmittedBlobView,
) -> protocol::BlobMetadataView {
    protocol::BlobMetadataView {
        total_size_bytes: blob.value.len() as i64,
        compression_type: CompressionType::Uncompressed.number(),
        encryption: Some(
            protocol::EncryptionView::Unencrypted { blob_id: encode_utf8(blob.key) },
        ),
    }
}

/// Describes a blob that goes out in plaintext.
pub fn unencrypted_metadata(blob: &EmittedBlob) -> (m: BlobMetadata)
    ensures
        m@ == plaintext_metadata(blob@),
        blob.value@.len() <= i64::MAX ==> m.total_size_bytes == blob.value@.len(),
        m.compression_type == CompressionType::Uncompressed.number(),
        m.encryption_metadata matches Some(EncryptionMetadata::Unencrypted(u)) && u.blob_id@
            == encode_utf8(blob.key@),
{
    BlobMetadata {
        total_size_bytes: blob.value.len() as i64,
        compression_type: CompressionType::Uncompressed.number(),
        encryption_metadata: Some(
            EncryptionMetadata::Unencrypted(
                Unencrypted { blob_id: vstd::slice::slice_to_vec(blob.key.as_str().as_bytes()) },
            ),
        ),
    }
}

/// The response that hands out a blob.
pub open spec fn read_view(blob: transform_session::EmittedBlobView) -> protocol::ResponseView {
    protocol::ResponseView::Read {
        configuration: None,
        metadata: Some(plaintext_metadata(blob)),
        finish_read: true,
        data: blob.value,
    }
}

/// The responses that end a session: one for each blob, in the order in which
/// they were emitted, and the farewell.
pub open spec fn final_views(blobs: Seq<transform_session::EmittedBlobView>) -> Seq<
    protocol::ResponseView,
> {
    Seq::new(blobs.len(), |i: int| read_view(blobs[i])).push(protocol::ResponseView::Finalize)
}

/// The response hands out the blob, whole and in the clear.
pub open spec fn hands_out(response: SessionResponse, blob: EmittedBlob) -> bool {
    &&& response.kind matches Some(ResponseKind::Read(read))
    &&& read.finish_read
    &&& read.first_response_configuration is None
    &&& read.data@ == blob.value@
    &&& read.first_response_metadata matches Some(m)
    &&& blob.value@.len() <= i64::MAX ==> m.total_size_bytes == blob.value@.len()
    &&& m.compression_type == CompressionType::Uncompressed.number()
    &&& m.encryption_metadata matches Some(EncryptionMetadata::Unencrypted(u))
    &&& u.blob_id@ == encode_utf8(blob.key@)
}

/// The responses that end a session.
pub fn final_responses(blobs: Vec<EmittedBlob>) -> (r: Vec<SessionResponse>)
    ensures
        order::views(r@) == final_views(order::views(blobs@)),
        r@.len() == blobs@.len() + 1,
        r@.last().kind matches Some(ResponseKind::Finalize(_)),
        forall|i: int| 0 <= i < blobs@.len() ==> hands_out(#[trigger] r@[i], blobs@[i]),
{
    let ghost all = order::views(blobs@);
    let mut responses: Vec<SessionResponse> = Vec::new();
    let mut i: usize = 0;
    while i < blobs.len()
        invariant
            i <= blobs@.len(),
            all == order::views(blobs@),
            responses@.len() == i,
            forall|j: int| 0 <= j < i ==> (#[trigger] responses@[j])@ == read_view(all[j]),
            forall|j: int| 0 <= j < i ==> hands_out(#[trigger] responses@[j], blobs@[j]),
        decreases blobs@.len() - i,
    {
        let blob = &blobs[i];
        assert(all[i as int] == blob@);
        responses.push(
            wrap(
                ResponseKind::Read(
                    ReadResponse {
                        first_response_configuration: None,
                        first_response_metadata: Some(unencrypted_metadata(blob)),
                        finish_read: true,
                        data: vstd::slice::slice_to_vec(blob.value.as_slice()),
                    },
                ),
            ),
        );
        i = i + 1;
    }
    responses.push(wrap(ResponseKind::Finalize(FinalizeResponse {  })));
    assert(order::views(responses@) =~= final_views(all));
    responses
}

// ---------------------------------------------------------------------------
// The session
// ---------------------------------------------------------------------------

/// The configuration that a session is handed.
pub open spec fn configuration_bytes(request: ConfigureRequest) -> Seq<u8> {
    match request.configuration {
        Some(any) => any.value@,
        None => Seq::empty(),
    }
}

/// Drives a wasm session over the request/response protocol.
pub struct ConfidentialTransformSession {
    session: TransformSession,
    keys: Option<TransformKeys>,
}

impl ConfidentialTransformSession {
    /// The session can be driven.
    pub closed spec fn well_formed(&self) -> bool {
        self.session.well_formed()
    }

    /// The guest.
    pub closed spec fn guest(&self) -> TransformSession {
        self.session
    }

    /// The released keys, if any.
    pub closed spec fn keys(&self) -> Option<Seq<transform_crypto::DecryptionKeyView>> {
        keys_view(self.keys)
    }

    /// The handler stands as it did, but for what the guest was asked.
    pub open spec fn keeps(&self, before: &ConfidentialTransformSession) -> bool {
        &&& self.well_formed()
        &&& self.keys() == before.keys()
        &&& self.guest().source() == before.guest().source()
        &&& self.guest().allows() == before.guest().allows()
        &&& self.guest().links() == before.guest().links()
    }

    /// The guest was called once more.
    pub open spec fn called(
        &self,
        before: &ConfidentialTransformSession,
        name: Seq<char>,
        argument: Option<Seq<u8>>,
        returned: bool,
    ) -> bool {
        self.guest().calls() == before.guest().calls().push(
            transform_session::session_call(name, argument, returned),
        )
    }

    /// Nothing was taken out of the guest, and what it emitted is still there.
    pub open spec fn holds_on(&self, before: &ConfidentialTransformSession) -> bool {
        &&& self.guest().taken() == before.guest().taken()
        &&& before.guest().pending().is_prefix_of(self.guest().pending())
    }

    /// Everything that the guest emitted was taken out, and `blobs` is what came out:
    /// what was there before, and what was emitted since.
    pub open spec fn gave_up(
        &self,
        before: &ConfidentialTransformSession,
        blobs: Seq<transform_session::EmittedBlobView>,
    ) -> bool {
        &&& self.guest().taken() == before.guest().taken() + blobs
        &&& self.guest().pending() == Seq::<transform_session::EmittedBlobView>::empty()
        &&& before.guest().pending().is_prefix_of(blobs)
    }

    /// The blobs that came out of the guest since.
    pub open spec fn came_out(&self, before: &ConfidentialTransformSession) -> Seq<
        transform_session::EmittedBlobView,
    > {
        self.guest().taken().skip(before.guest().taken().len() as int)
    }

    /// A handler for one session. Without released keys it takes plaintext blobs
    /// only.
    pub fn new(session: TransformSession, keys: Option<TransformKeys>) -> (handler:
        ConfidentialTransformSession)
        requires
            session.well_formed(),
        ensures
            handler.well_formed(),
            handler.guest() == session,
            handler.keys() == keys_view(keys),
    {
        ConfidentialTransformSession { session, keys }
    }

    /// Handles one request, returning the responses it produces (a `finalize`
    /// yields one response per emitted blob, followed by the farewell).
    ///
    /// A request hands the guest exactly one call, unless it asks for nothing or
    /// writes what cannot be decrypted: then the guest learns nothing of it.
    /// Whether the guest returns is its own affair.
    pub fn handle(&mut self, request: SessionRequest) -> (r: Result<
        Vec<SessionResponse>,
        TransformError,
    >)
        requires
            old(self).well_formed(),
        ensures
            final(self).keeps(old(self)),
            match request.kind {
                None => {
                    &&& r matches Err(e)
                    &&& e is NoKind
                    &&& final(self).guest() == old(self).guest()
                },
                Some(RequestKind::Configure(configure)) => {
                    &&& final(self).called(
                        old(self),
                        "configure"@,
                        Some(configuration_bytes(configure)),
                        r is Ok,
                    )
                    &&& final(self).holds_on(old(self))
                    &&& match r {
                        Ok(responses) => order::views(responses@) == seq![
                            protocol::ResponseView::Configure,
                        ],
                        Err(e) => e is Session,
                    }
                },
                Some(RequestKind::Write(write)) => match written_plaintext(
                    write,
                    old(self).keys(),
                ) {
                    Err(e) => {
                        &&& r == Err::<Vec<SessionResponse>, TransformError>(refusal(e))
                        &&& final(self).guest() == old(self).guest()
                    },
                    Ok(plaintext) => {
                        &&& final(self).called(old(self), "write"@, Some(plaintext), r is Ok)
                        &&& final(self).holds_on(old(self))
                        &&& match r {
                            Ok(responses) => order::views(responses@) == seq![
                                protocol::ResponseView::Write {
                                    committed_size_bytes: plaintext.len() as i64,
                                    status: Some(ok_view()),
                                },
                            ],
                            Err(e) => e is Session,
                        }
                    },
                },
                Some(RequestKind::Commit(_)) => {
                    &&& final(self).called(old(self), "commit"@, None, r is Ok)
                    &&& final(self).holds_on(old(self))
                    &&& match r {
                        Ok(responses) => order::views(responses@) == seq![
                            protocol::ResponseView::Commit { status: Some(ok_view()) },
                        ],
                        Err(e) => e is Session,
                    }
                },
                Some(RequestKind::Finalize(_)) => {
                    &&& final(self).called(old(self), "finalize"@, None, r is Ok)
                    &&& match r {
                        Ok(responses) => {
                            let blobs = final(self).came_out(old(self));
                            &&& final(self).gave_up(old(self), blobs)
                            &&& order::views(responses@) == final_views(blobs)
                        },
                        Err(e) => e is Session && final(self).holds_on(old(self)),
                    }
                },
            },
    {
        match request.kind {
            Some(RequestKind::Configure(configure)) => self.configure(configure),
            Some(RequestKind::Write(write)) => self.write(write),
            Some(RequestKind::Commit(_)) => self.commit(),
            Some(RequestKind::Finalize(_)) => self.finalize(),
            None => Err(TransformError::NoKind),
        }
    }

    fn configure(&mut self, request: ConfigureRequest) -> (r: Result<
        Vec<SessionResponse>,
        TransformError,
    >)
        requires
            old(self).well_formed(),
        ensures
            final(self).keeps(old(self)),
            final(self).called(
                old(self),
                "configure"@,
                Some(configuration_bytes(request)),
                r is Ok,
            ),
            final(self).holds_on(old(self)),
            match r {
                Ok(responses) => order::views(responses@) == seq![
                    protocol::ResponseView::Configure,
                ],
                Err(e) => e is Session,
            },
    {
        let config: Vec<u8> = match request.configuration {
            Some(any) => any.value,
            None => Vec::new(),
        };
        assert(config@ =~= configuration_bytes(request));
        match self.session.configure(config.as_slice()) {
            Ok(()) => Ok(only(ResponseKind::Configure(ConfigureResponse {  }))),
            Err(e) => Err(TransformError::Session(e)),
        }
    }

    fn write(&mut self, request: WriteRequest) -> (r: Result<Vec<SessionResponse>, TransformError>)
        requires
            old(self).well_formed(),
        ensures
            final(self).keeps(old(self)),
            match written_plaintext(request, old(self).keys()) {
                Err(e) => {
                    &&& r == Err::<Vec<SessionResponse>, TransformError>(refusal(e))
                    &&& final(self).guest() == old(self).guest()
                },
                Ok(plaintext) => {
                    &&& final(self).called(old(self), "write"@, Some(plaintext), r is Ok)
                    &&& final(self).holds_on(old(self))
                    &&& match r {
                        Ok(responses) => order::views(responses@) == seq![
                            protocol::ResponseView::Write {
                                committed_size_bytes: plaintext.len() as i64,
                                status: Some(ok_view()),
                            },
                        ],
                        Err(e) => e is Session,
                    }
                },
            },
    {
        let plaintext = match plaintext_data(&request, &self.keys) {
            Ok(plaintext) => plaintext,
            Err(e) => return Err(e),
        };
        let committed_size_bytes: i64 = plaintext.len() as i64;
        match self.session.write(plaintext.as_slice()) {
            Ok(()) => Ok(
                only(
                    ResponseKind::Write(
                        WriteFinishedResponse { committed_size_bytes, status: Some(ok_status()) },
                    ),
                ),
            ),
            Err(e) => Err(TransformError::Session(e)),
        }
    }

    fn commit(&mut self) -> (r: Result<Vec<SessionResponse>, TransformError>)
        requires
            old(self).well_formed(),
        ensures
            final(self).keeps(old(self)),
            final(self).called(old(self), "commit"@, None, r is Ok),
            final(self).holds_on(old(self)),
            match r {
                Ok(responses) => order::views(responses@) == seq![
                    protocol::ResponseView::Commit { status: Some(ok_view()) },
                ],
                Err(e) => e is Session,
            },
    {
        match self.session.commit() {
            Ok(()) => Ok(
                only(ResponseKind::Commit(CommitResponse { status: Some(ok_status()) })),
            ),
            Err(e) => Err(TransformError::Session(e)),
        }
    }

    fn finalize(&mut self) -> (r: Result<Vec<SessionResponse>, TransformError>)
        requires
            old(self).well_formed(),
        ensures
            final(self).keeps(old(self)),
            final(self).called(old(self), "finalize"@, None, r is Ok),
            match r {
                Ok(responses) => {
                    let blobs = final(self).came_out(old(self));
                    &&& final(self).gave_up(old(self), blobs)
                    &&& order::views(responses@) == final_views(blobs)
                },
                Err(e) => e is Session && final(self).holds_on(old(self)),
            },
    {
        match self.session.finalize() {
            Ok(()) => {},
            Err(e) => return Err(TransformError::Session(e)),
        }
        let blobs = self.session.take_emitted();
        assert(self.came_out(old(self)) =~= order::views(blobs@));
        Ok(final_responses(blobs))
    }
}

// ---------------------------------------------------------------------------
// The workload
// ---------------------------------------------------------------------------

/// Whether a workload is a ConfidentialTransform session (as opposed to a pure
/// transform), by the configured entry interface.
pub fn is_session_workload(wasm: &WasmWorkloadConfig) -> (r: bool)
    ensures
        r == (wasm@.entry_interface == SESSION_IFACE@),
{
    text::str_equal(wasm.entry_interface.as_str(), SESSION_IFACE)
}

/// Why a session workload could not be loaded.
#[derive(Debug)]
pub enum WorkloadError {
    /// The entry component is not in the configuration.
    EntryComponent,
    /// The session component is not in the bundle.
    MissingFile { id: String, path: String },
    /// The session component could not be compiled.
    Compile,
}

/// The component that a session workload runs: the first one of the entry name.
pub open spec fn session_component(c: config::WasmWorkloadConfigView) -> Option<
    config::WasmComponentRefView,
> {
    match wasm_runtime::component_names(c.components).index_of_first(c.entry_component) {
        Some(k) => Some(c.components[k]),
        None => None,
    }
}

/// The claim of a session component: what it imports, against the grant that the
/// session runtime enforces.
pub open spec fn session_claim(
    component: config::WasmComponentRefView,
    bytes: Seq<u8>,
) -> claim::WasmCapabilityClaimView {
    capability::claim_of(
        seq![
            capability::ComponentFacts {
                id: component.id,
                role: component.role,
                bytes,
                imports: engine::component_imports(bytes),
            },
        ],
        Seq::empty(),
        Some(transform_session::session_grant()),
    )
}

/// A compiled session workload. The component is compiled once and its capability
/// claim derived from it; each session gets a fresh instance, so that concurrent
/// clients are isolated.
pub struct SessionWorkload {
    engine: WasmEngine,
    component: CompiledComponent,
    claim_bytes: Vec<u8>,
}

/// What comes of loading a session workload: the first component of the entry
/// name is compiled and its claim derived, or the step that fails is named. Which
/// components compile is the engine's verdict.
pub open spec fn session_load(
    c: config::WasmWorkloadConfigView,
    files: Map<Seq<char>, Seq<u8>>,
    r: Result<SessionWorkload, WorkloadError>,
) -> bool {
    match session_component(c) {
        None => r matches Err(e) && e is EntryComponent,
        Some(component) => if !files.dom().contains(bundle::normalized(component.path)) {
            r matches Err(e) && e matches WorkloadError::MissingFile { id, path } && id@
                == component.id && path@ == component.path
        } else {
            let bytes = files[bundle::normalized(component.path)];
            &&& engine::is_core_module(bytes) ==> r is Err
            &&& match r {
                Ok(workload) => workload.source() == bytes && workload.claim()
                    == message::encoding::<WasmCapabilityClaim>(session_claim(component, bytes)),
                Err(e) => e is Compile && compiled::turned_down(bytes),
            }
        },
    }
}

/// Finds the component that a session workload runs.
fn find_session_component(wasm: &WasmWorkloadConfig) -> (r: Option<usize>)
    ensures
        match r {
            Some(k) => k < wasm.components@.len() && session_component(wasm@) == Some(
                wasm.components@[k as int]@,
            ),
            None => session_component(wasm@) is None,
        },
{
    let ghost names = wasm_runtime::component_names(wasm@.components);
    proof {
        names.index_of_first_ensures(wasm@.entry_component);
    }
    let mut k: usize = 0;
    while k < wasm.components.len()
        invariant
            k <= wasm.components@.len(),
            names == wasm_runtime::component_names(wasm@.components),
            forall|j: int| 0 <= j < k ==> names[j] != wasm@.entry_component,
        decreases wasm.components@.len() - k,
    {
        if wasm.components[k].id == wasm.entry_component {
            proof {
                names.index_of_first_ensures(wasm@.entry_component);
                assert(names[k as int] == wasm@.entry_component);
            }
            return Some(k);
        }
        assert(names[k as int] == wasm.components@[k as int].id@);
        k = k + 1;
    }
    proof {
        names.index_of_first_ensures(wasm@.entry_component);
    }
    None
}

impl SessionWorkload {
    /// The bytes that the component was compiled from.
    pub closed spec fn source(&self) -> Seq<u8> {
        self.component.source()
    }

    /// The encoded capability claim.
    pub closed spec fn claim(&self) -> Seq<u8> {
        self.claim_bytes@
    }

    /// Compiles the workload's (single) session component and derives its claim.
    ///
    /// The claim is derived from the same compiled component, against the exact
    /// WASI grant the session runtime enforces. Whether the component compiles is
    /// the engine's verdict.
    pub fn load(wasm: &WasmWorkloadConfig, files: &BundleFiles) -> (r: Result<
        SessionWorkload,
        WorkloadError,
    >)
        ensures
            session_load(wasm@, files@, r),
    {
        Self::load_with_engine(WasmEngine::new(), wasm, files)
    }

    /// As [`load`](Self::load), on an engine of the caller's.
    pub fn load_with_engine(
        engine: WasmEngine,
        wasm: &WasmWorkloadConfig,
        files: &BundleFiles,
    ) -> (r: Result<SessionWorkload, WorkloadError>)
        ensures
            session_load(wasm@, files@, r),
    {
        let k: usize = match find_session_component(wasm) {
            Some(k) => k,
            None => return Err(WorkloadError::EntryComponent),
        };
        let entry = &wasm.components[k];
        let bytes = match lookup(files, entry.path.as_str()) {
            Some(bytes) => bytes,
            None => {
                return Err(
                    WorkloadError::MissingFile { id: entry.id.clone(), path: entry.path.clone() },
                );
            },
        };
        let component = match CompiledComponent::build(&engine, bytes) {
            Ok(component) => component,
            Err(_) => return Err(WorkloadError::Compile),
        };
        let mut loaded: Vec<LoadedComponent<'_>> = Vec::new();
        loaded.push(
            LoadedComponent {
                id: entry.id.clone(),
                role: entry.role.clone(),
                bytes,
                component: &component,
            },
        );
        let edges: Vec<Edge> = Vec::new();
        let grant = session_wasi_grant();
        proof {
            assert(order::views(loaded@) =~= seq![
                capability::ComponentFacts {
                    id: entry@.id,
                    role: entry@.role,
                    bytes: bytes@,
                    imports: engine::component_imports(bytes@),
                },
            ]);
            assert(order::views(edges@) =~= Seq::empty());
        }
        match derive_claim_from_loaded(
            &engine,
            loaded.as_slice(),
            edges.as_slice(),
            Some(&grant),
        ) {
            Ok(claim) => {
                let claim_bytes = message::encode(&claim);
                Ok(SessionWorkload { engine, component, claim_bytes })
            },
            Err(_) => Err(WorkloadError::Compile),
        }
    }

    /// The canonical encoding of the derived capability claim.
    pub fn claim_bytes(&self) -> (bytes: &[u8])
        ensures
            bytes@ == self.claim(),
    {
        self.claim_bytes.as_slice()
    }

    /// Instantiates a fresh session from the compiled component, without
    /// compiling it again.
    pub fn new_session(&self) -> (r: Result<TransformSession, SessionError>)
        ensures
            r matches Ok(s) ==> s.started_from(self.source()),
            r matches Err(e) ==> transform_session::start_failure(self.source(), e),
    {
        TransformSession::instantiate(&self.engine, &self.component)
    }
}

// ---------------------------------------------------------------------------
// Laws
// ---------------------------------------------------------------------------

/// The claim of a session denies everything that its runtime withholds: network,
/// storage, environment and spawning, whatever the component imports.
pub proof fn law_session_claim_denies_what_is_withheld(
    component: config::WasmComponentRefView,
    bytes: Seq<u8>,
    property: capability::RuntimeProperty,
)
    requires
        property != capability::RuntimeProperty::WallClock,
        property != capability::RuntimeProperty::Randomness,
    ensures
        capability::reported(
            session_claim(component, bytes).runtime_properties->0,
            property,
        ) == Enforcement::Denied.number(),
{
    let facts = seq![
        capability::ComponentFacts {
            id: component.id,
            role: component.role,
            bytes,
            imports: engine::component_imports(bytes),
        },
    ];
    capability::law_properties_are_effective_authority(
        facts,
        Seq::empty(),
        Some(transform_session::session_grant()),
        property,
    );
}

/// The claim of a session embeds the very grant that its runtime enforces: what the
/// context that is built for the grant allows is the grant.
pub proof fn law_session_claim_embeds_the_enforced_grant(
    component: config::WasmComponentRefView,
    bytes: Seq<u8>,
)
    ensures
        session_claim(component, bytes).wasi_runtime_grant matches Some(grant) && wasi::denies_all(
            grant,
        ) && wasi::realized(grant) == grant,
{
    let grant = transform_session::session_grant();
    assert(wasi::realized(grant) =~= grant);
}

/// The claim of a session cannot misdescribe its runtime: the grant that the claim
/// embeds is what the context of every session of the component allows, at the start
/// and however often the guest is called.
pub proof fn law_session_runs_under_the_claimed_grant(
    component: config::WasmComponentRefView,
    started: TransformSession,
    later: TransformSession,
)
    requires
        started.started_from(started.source()),
        later.ran_on(&started),
    ensures
        session_claim(component, started.source()).wasi_runtime_grant == Some(started.allows()),
        session_claim(component, later.source()).wasi_runtime_grant == Some(later.allows()),
{
}

/// Whoever asks without a released key gets no encrypted blob through to the
/// guest, and plaintext goes through untouched, keys or no keys.
pub proof fn law_only_released_keys_open_writes(
    request: WriteRequest,
    keys: Option<Seq<transform_crypto::DecryptionKeyView>>,
)
    ensures
        written_encryption(request) matches Some(protocol::EncryptionView::HpkePlusAead(_))
            ==> written_plaintext(request, None) is Err,
        !(written_encryption(request) matches Some(protocol::EncryptionView::HpkePlusAead(_)))
            ==> written_plaintext(request, keys) == Ok::<Seq<u8>, PlaintextError>(request.data@),
{
}

/// The responses of a `finalize` give back every emitted blob, byte for byte, in
/// order, and nothing else but the farewell.
pub proof fn law_finalize_gives_back_what_was_emitted(
    blobs: Seq<transform_session::EmittedBlobView>,
    i: int,
)
    requires
        0 <= i < blobs.len(),
    ensures
        final_views(blobs).len() == blobs.len() + 1,
        final_views(blobs)[i] matches protocol::ResponseView::Read { data, metadata, .. } && data
            == blobs[i].value && (metadata matches Some(m) && m.encryption == Some(
            protocol::EncryptionView::Unencrypted { blob_id: encode_utf8(blobs[i].key) },
        )),
        final_views(blobs).last() is Finalize,
{
}

/// Nothing that a guest emits is lost or comes back twice: whatever requests came
/// before, a `finalize` gives back what was emitted since the last one, in order, and
/// leaves nothing behind for the next.
pub proof fn law_emissions_come_back_once(
    first: ConfidentialTransformSession,
    then: ConfidentialTransformSession,
    last: ConfidentialTransformSession,
    blobs: Seq<transform_session::EmittedBlobView>,
)
    requires
        first.guest().pending() == Seq::<transform_session::EmittedBlobView>::empty(),
        then.holds_on(&first),
        last.gave_up(&then, blobs),
    ensures
        then.guest().pending().is_prefix_of(blobs),
        last.guest().taken() == first.guest().taken() + blobs,
        last.came_out(&first) == blobs,
        last.guest().pending() == Seq::<transform_session::EmittedBlobView>::empty(),
{
    assert(last.came_out(&first) =~= blobs);
}

/// Every read of a `finalize` is complete in one response, however its blob was
/// emitted: it finishes the read, holds no configuration, and its metadata gives the
/// size of the data that comes with it, says that it is not compressed (1) and not
/// encrypted, and names the blob by its key.
pub proof fn law_every_read_of_a_finalize_is_complete(
    blobs: Seq<transform_session::EmittedBlobView>,
)
    ensures
        forall|i: int|
            0 <= i < blobs.len() ==> ((#[trigger] final_views(blobs)[i])
                matches protocol::ResponseView::Read {
                configuration,
                metadata,
                finish_read,
                data,
            } && finish_read && configuration is None && data == blobs[i].value && (metadata
                matches Some(m) && (data.len() <= i64::MAX ==> m.total_size_bytes == data.len())
                && m.compression_type == 1 && (m.encryption
                matches Some(protocol::EncryptionView::Unencrypted { blob_id }) && blob_id
                == encode_utf8(blobs[i].key)))),
        final_views(blobs).len() == blobs.len() + 1,
        final_views(blobs).last() is Finalize,
{
}

/// The end of a session depends on nothing but key and value of what was emitted:
/// how a blob was emitted does not change its response.
pub proof fn law_reads_do_not_depend_on_the_emitter(
    a: Seq<transform_session::EmittedBlobView>,
    b: Seq<transform_session::EmittedBlobView>,
)
    requires
        a.len() == b.len(),
        forall|i: int|
            0 <= i < a.len() ==> (#[trigger] a[i]).key == b[i].key && a[i].value == b[i].value,
    ensures
        final_views(a) == final_views(b),
{
    assert(final_views(a) =~= final_views(b));
}

/// What a write hands to the guest follows from how its metadata says that it is
/// encrypted, from the data and from the keys, and from nothing else in the request.
/// Plaintext is handed on as it is; a sealed blob is handed on as what the keys open
/// it to, refused with the reason where they do not open it, and refused where there
/// are no keys.
pub proof fn law_write_follows_its_metadata(
    request: WriteRequest,
    keys: Seq<transform_crypto::DecryptionKeyView>,
)
    ensures
        match request.first_request_metadata {
            None => {
                &&& written_plaintext(request, None) == Ok::<Seq<u8>, PlaintextError>(request.data@)
                &&& written_plaintext(request, Some(keys)) == Ok::<Seq<u8>, PlaintextError>(
                    request.data@,
                )
            },
            Some(metadata) => match metadata.encryption_metadata {
                None | Some(EncryptionMetadata::Unencrypted(_)) => {
                    &&& written_plaintext(request, None) == Ok::<Seq<u8>, PlaintextError>(
                        request.data@,
                    )
                    &&& written_plaintext(request, Some(keys)) == Ok::<Seq<u8>, PlaintextError>(
                        request.data@,
                    )
                },
                Some(EncryptionMetadata::HpkePlusAeadData(sealed)) => {
                    &&& written_plaintext(request, None) == Err::<Seq<u8>, PlaintextError>(
                        PlaintextError::NoKeys,
                    )
                    &&& match transform_crypto::blob_opened(keys, sealed@, request.data@) {
                        Ok(plaintext) => written_plaintext(request, Some(keys)) == Ok::<
                            Seq<u8>,
                            PlaintextError,
                        >(plaintext),
                        Err(e) => written_plaintext(request, Some(keys)) == Err::<
                            Seq<u8>,
                            PlaintextError,
                        >(PlaintextError::Decrypt(e)),
                    }
                },
            },
        },
{
}

/// A blob that was sealed to a released key reaches the guest as the plaintext that
/// was sealed, whatever else the request says.
pub proof fn law_sealed_write_reaches_the_guest(
    request: WriteRequest,
    metadata: BlobMetadata,
    sealed: protocol::HpkePlusAeadMetadata,
    keys: Seq<transform_crypto::DecryptionKeyView>,
    plaintext: Seq<u8>,
)
    requires
        request.first_request_metadata == Some(metadata),
        metadata.encryption_metadata == Some(EncryptionMetadata::HpkePlusAeadData(sealed)),
        transform_crypto::blob_opened(keys, sealed@, request.data@) == Ok::<
            Seq<u8>,
            DecryptError,
        >(plaintext),
    ensures
        written_plaintext(request, Some(keys)) == Ok::<Seq<u8>, PlaintextError>(plaintext),
{
}

/// A refusal tells why: that there are no keys, or what decryption failed on.
pub proof fn law_refusal_tells_why(e: PlaintextError)
    ensures
        refusal(e) is NoKeys <==> e is NoKeys,
        e matches PlaintextError::Decrypt(why) ==> (refusal(e) matches TransformError::Decrypt(told)
            && told == why),
{
}

/// Success is status 0 with nothing to say.
pub proof fn law_success_is_status_zero()
    ensures
        ok_view().code == 0,
        ok_view().message.len() == 0,
{
}

/// The guest is configured with the value of the configuration, whatever type it is
/// said to have, and with nothing where there is none.
pub proof fn law_configuration_is_the_value(a: ConfigureRequest, b: ConfigureRequest)
    ensures
        a.configuration matches Some(any) ==> configuration_bytes(a) == any.value@,
        a.configuration is None ==> configuration_bytes(a).len() == 0,
        a.configuration matches Some(x) && b.configuration matches Some(y) && x.value@ == y.value@
            ==> configuration_bytes(a) == configuration_bytes(b),
{
}

/// The session component is the first one of the entry's name; there is none only
/// where no component has that name.
pub proof fn law_session_component_is_the_first_of_its_name(
    c: config::WasmWorkloadConfigView,
    k: int,
)
    requires
        0 <= k < c.components.len(),
        c.components[k].id == c.entry_component,
        forall|j: int| 0 <= j < k ==> (#[trigger] c.components[j]).id != c.entry_component,
    ensures
        session_component(c) == Some(c.components[k]),
{
    let names = wasm_runtime::component_names(c.components);
    names.index_of_first_ensures(c.entry_component);
    assert(names[k] == c.entry_component);
    let m = names.index_of_first(c.entry_component)->0;
    assert(names[m] == c.components[m].id);
    if m < k {
        assert(c.components[m].id != c.entry_component);
    }
}

/// A loaded session workload runs, and claims, the file of the first component of the
/// entry's name: the claim decodes to one component, with that component's name and
/// role and the SHA-256 of the bytes that run, alone and unwired, under the session's
/// grant.
#[verifier::rlimit(40)]
pub proof fn law_session_workload_claims_what_it_runs(
    c: config::WasmWorkloadConfigView,
    files: Map<Seq<char>, Seq<u8>>,
    workload: SessionWorkload,
    k: int,
)
    requires
        session_load(c, files, Ok(workload)),
        workload.claim().len() <= u64::MAX,
        0 <= k < c.components.len(),
        c.components[k].id == c.entry_component,
        forall|j: int| 0 <= j < k ==> (#[trigger] c.components[j]).id != c.entry_component,
    ensures
        files.dom().contains(bundle::normalized(c.components[k].path)),
        workload.source() == files[bundle::normalized(c.components[k].path)],
        message::decoded::<WasmCapabilityClaim>(
            workload.claim(),
            wire::RECURSION_LIMIT as nat,
        ) matches Some(claimed) && {
            &&& claimed.components.len() == 1
            &&& claimed.components[0].id == c.entry_component
            &&& claimed.components[0].role == c.components[k].role
            &&& claimed.components[0].digest == hash::sha256_digest(workload.source())
            &&& claimed.graph matches Some(graph) && graph.edges.len() == 0
            &&& claimed.wasi_runtime_grant matches Some(grant) && grant
                == transform_session::session_grant()
        },
{
    law_session_component_is_the_first_of_its_name(c, k);
    let bytes = workload.source();
    let facts = seq![
        capability::ComponentFacts {
            id: c.components[k].id,
            role: c.components[k].role,
            bytes,
            imports: engine::component_imports(bytes),
        },
    ];
    let none = Seq::<claim::EdgeView>::empty();
    capability::law_claim_describes_the_composition(
        facts,
        none,
        Some(transform_session::session_grant()),
    );
    order::lemma_sorted_is_ordered_permutation::<Edge>(none);
    message::law_decode_encode::<WasmCapabilityClaim>(
        session_claim(c.components[k], bytes),
        wire::RECURSION_LIMIT as nat,
    );
    let claimed = session_claim(c.components[k], bytes);
    assert(claimed.components[0].id == facts[0].id);
}

/// Only three things keep a session workload from loading: no component has the
/// entry's name, the file of the first one that has it is not in the bundle, or the
/// engine does not compile that file.
#[verifier::rlimit(40)]
pub proof fn law_session_workload_fails_for_a_reason(
    c: config::WasmWorkloadConfigView,
    files: Map<Seq<char>, Seq<u8>>,
    e: WorkloadError,
)
    requires
        session_load(c, files, Err(e)),
    ensures
        e is EntryComponent <==> (forall|k: int|
            0 <= k < c.components.len() ==> (#[trigger] c.components[k]).id != c.entry_component),
        forall|k: int|
            0 <= k < c.components.len() && (#[trigger] c.components[k]).id == c.entry_component && (
            forall|j: int| 0 <= j < k ==> (#[trigger] c.components[j]).id != c.entry_component) && e
                is Compile ==> compiled::turned_down(
                files[bundle::normalized(c.components[k].path)],
            ),
        forall|k: int|
            0 <= k < c.components.len() && (#[trigger] c.components[k]).id == c.entry_component && (
            forall|j: int| 0 <= j < k ==> (#[trigger] c.components[j]).id != c.entry_component) ==> (
            e is MissingFile <==> !files.dom().contains(bundle::normalized(c.components[k].path)))
                && (e matches WorkloadError::MissingFile { id, path } ==> id@ == c.components[k].id
                && path@ == c.components[k].path),
{
    let names = wasm_runtime::component_names(c.components);
    names.index_of_first_ensures(c.entry_component);
    if exists|k: int| 0 <= k < c.components.len() && (#[trigger] c.components[k]).id
        == c.entry_component {
        let k = choose|k: int|
            0 <= k < c.components.len() && (#[trigger] c.components[k]).id == c.entry_component;
        assert(names[k] == c.entry_component);
        assert(names.contains(c.entry_component));
    } else {
        if names.contains(c.entry_component) {
            let m = names.index_of(c.entry_component);
            assert(c.components[m].id == c.entry_component);
        }
    }
    assert forall|k: int|
        0 <= k < c.components.len() && (#[trigger] c.components[k]).id == c.entry_component && (
        forall|j: int|
            0 <= j < k ==> (#[trigger] c.components[j]).id != c.entry_component) implies (
    e is MissingFile <==> !files.dom().contains(bundle::normalized(c.components[k].path))) && (e
        matches WorkloadError::MissingFile { id, path } ==> id@ == c.components[k].id && path@
        == c.components[k].path) by {
        law_session_component_is_the_first_of_its_name(c, k);
    }
    assert forall|k: int|
        0 <= k < c.components.len() && (#[trigger] c.components[k]).id == c.entry_component && (
        forall|j: int| 0 <= j < k ==> (#[trigger] c.components[j]).id != c.entry_component) && e
            is Compile implies compiled::turned_down(
        files[bundle::normalized(c.components[k].path)],
    ) by {
        law_session_component_is_the_first_of_its_name(c, k);
    }
}

/// Whatever is asked of a handler, it stays the handler that it is: it can be driven on,
/// and its keys, its component, what the component may do and what it is linked to stay
/// the same.
pub proof fn law_requests_keep_the_handler(
    before: ConfidentialTransformSession,
    after: ConfidentialTransformSession,
)
    requires
        after.keeps(&before),
    ensures
        after.well_formed(),
        after.keys() == before.keys(),
        after.guest().source() == before.guest().source(),
        after.guest().allows() == before.guest().allows(),
        after.guest().links() == before.guest().links(),
{
}

/// A request that reaches the guest is one call of it: of the session function of that
/// name, with exactly that argument, behind all calls that were made before.
pub proof fn law_request_is_one_call_of_the_guest(
    before: ConfidentialTransformSession,
    after: ConfidentialTransformSession,
    name: Seq<char>,
    argument: Option<Seq<u8>>,
    returned: bool,
)
    requires
        after.called(&before, name, argument, returned),
    ensures
        after.guest().calls().len() == before.guest().calls().len() + 1,
        after.guest().calls().drop_last() == before.guest().calls(),
        after.guest().calls().last().function.interface == "cfc:transform/session@0.1.0"@,
        after.guest().calls().last().function.name == name,
        after.guest().calls().last().argument == argument,
        after.guest().calls().last().outcome is Some <==> returned,
{
    assert(after.guest().calls().drop_last() =~= before.guest().calls());
}

/// While nothing is taken out, what was emitted stays, in its place; and what is taken
/// out is everything, what was there before first, in its place.
pub proof fn law_emissions_stay_until_they_are_taken(
    before: ConfidentialTransformSession,
    after: ConfidentialTransformSession,
    blobs: Seq<transform_session::EmittedBlobView>,
    i: int,
)
    requires
        0 <= i < before.guest().pending().len(),
    ensures
        after.holds_on(&before) ==> i < after.guest().pending().len() && after.guest().pending()[i]
            == before.guest().pending()[i] && after.guest().taken() == before.guest().taken(),
        after.gave_up(&before, blobs) ==> i < blobs.len() && blobs[i] == before.guest().pending()[i]
            && after.guest().pending().len() == 0 && after.came_out(&before) == blobs,
{
    if after.holds_on(&before) {
        let all = after.guest().pending();
        assert(all.subrange(0, before.guest().pending().len() as int)[i] == all[i]);
    }
    if after.gave_up(&before, blobs) {
        assert(blobs.subrange(0, before.guest().pending().len() as int)[i] == blobs[i]);
        assert(after.came_out(&before) =~= blobs);
    }
}

/// A handler has the keys that it was given, if any.
pub proof fn law_keys_are_those_that_were_given(keys: Option<TransformKeys>)
    ensures
        keys is None <==> keys_view(keys) is None,
        keys matches Some(given) ==> keys_view(keys) == Some(given@),
{
}

/// The claim of a session grants what its component imports: every imported interface is
/// listed under the component's name, and nothing else is.
#[verifier::rlimit(40)]
pub proof fn law_session_claim_lists_the_imports(
    component: config::WasmComponentRefView,
    bytes: Seq<u8>,
)
    ensures
        forall|i: int|
            0 <= i < engine::component_imports(bytes).len() && (#[trigger] engine::component_imports(
                bytes,
            )[i]).interface is Some ==> exists|g: int|
                0 <= g < session_claim(component, bytes).granted_capabilities.len() && (
                #[trigger] session_claim(component, bytes).granted_capabilities[g]).interface
                    == engine::component_imports(bytes)[i].name && session_claim(
                    component,
                    bytes,
                ).granted_capabilities[g].component_id == component.id,
        forall|g: int|
            0 <= g < session_claim(component, bytes).granted_capabilities.len() ==> is_import_of(
                bytes,
                component.id,
                #[trigger] session_claim(component, bytes).granted_capabilities[g],
            ),
{
    let imports = engine::component_imports(bytes);
    let none = Seq::<claim::EdgeView>::empty();
    let facts = seq![
        capability::ComponentFacts { id: component.id, role: component.role, bytes, imports },
    ];
    let grant = Some(transform_session::session_grant());
    let granted = session_claim(component, bytes).granted_capabilities;
    capability::law_granted_capabilities_are_the_unwired_imports(facts, none, grant);
    assert forall|i: int|
        0 <= i < imports.len() && (#[trigger] imports[i]).interface is Some implies exists|g: int|
        0 <= g < granted.len() && (#[trigger] granted[g]).interface == imports[i].name
            && granted[g].component_id == component.id by {
        assert(capability::unwired(facts, none, 0, i));
    }
    assert forall|g: int| 0 <= g < granted.len() implies is_import_of(
        bytes,
        component.id,
        #[trigger] granted[g],
    ) by {
        let (c, i) = choose|c: int, i: int| #[trigger]
            capability::unwired(facts, none, c, i) && granted[g] == (
            claim::GrantedWasiCapabilityView {
                interface: facts[c].imports[i].name,
                component_id: facts[c].id,
                operations: Seq::empty(),
                resources: Seq::empty(),
                provenance: 1,
            });
        assert(imports[i].interface is Some);
    }
}

/// The capability is an interface that the component that some bytes hold imports.
pub open spec fn is_import_of(
    bytes: Seq<u8>,
    id: Seq<char>,
    capability: claim::GrantedWasiCapabilityView,
) -> bool {
    capability.component_id == id && exists|i: int|
        0 <= i < engine::component_imports(bytes).len() && (#[trigger] engine::component_imports(
            bytes,
        )[i]).interface is Some && capability.interface == engine::component_imports(bytes)[i].name
}

/// What the claim of a session reports: the wall clock and randomness are granted (2)
/// where the component imports them, since its runtime has both; everything else is
/// denied (1), whatever it imports.
#[verifier::rlimit(40)]
pub proof fn law_session_claim_reports_clock_and_randomness(
    component: config::WasmComponentRefView,
    bytes: Seq<u8>,
)
    ensures
        session_claim(component, bytes).runtime_properties matches Some(p) && {
            &&& p.network == 1
            &&& p.persistent_storage == 1
            &&& p.environment == 1
            &&& p.spawn == 1
            &&& p.wall_clock == (if imports_for(bytes, capability::RuntimeProperty::WallClock) {
                2i32
            } else {
                1i32
            })
            &&& p.randomness == (if imports_for(bytes, capability::RuntimeProperty::Randomness) {
                2i32
            } else {
                1i32
            })
        },
{
    let imports = engine::component_imports(bytes);
    let none = Seq::<claim::EdgeView>::empty();
    let facts = seq![
        capability::ComponentFacts { id: component.id, role: component.role, bytes, imports },
    ];
    capability::law_reported_properties(facts, none, transform_session::session_grant());
    assert forall|property: capability::RuntimeProperty|
        imports_for(bytes, property) == #[trigger] capability::unwired_import_of(
            facts,
            none,
            property,
        ) by {
        if imports_for(bytes, property) {
            let i = choose|i: int|
                0 <= i < imports.len() && (#[trigger] imports[i]).interface is Some
                    && capability::property_of(imports[i].name) == Some(property);
            assert(capability::unwired(facts, none, 0, i));
        }
        if capability::unwired_import_of(facts, none, property) {
            let (c, i) = choose|c: int, i: int| #[trigger]
                capability::unwired(facts, none, c, i) && capability::property_of(
                    facts[c].imports[i].name,
                ) == Some(property);
            assert(imports[i].interface is Some);
        }
    }
}

/// The component that some bytes hold imports an interface that stands for `property`.
pub open spec fn imports_for(bytes: Seq<u8>, property: capability::RuntimeProperty) -> bool {
    exists|i: int|
        0 <= i < engine::component_imports(bytes).len() && (#[trigger] engine::component_imports(
            bytes,
        )[i]).interface is Some && capability::property_of(
            engine::component_imports(bytes)[i].name,
        ) == Some(property)
}

/// The claim of a session is of the current schema and of this runtime, and its
/// commitment is over what it says itself.
pub proof fn law_session_claim_commits_to_itself(
    component: config::WasmComponentRefView,
    bytes: Seq<u8>,
)
    ensures
        ({
            let c = session_claim(component, bytes);
            &&& c.schema_version == "cfc-wasm-claim-v1"@
            &&& c.runtime_info matches Some(info) && c.graph matches Some(graph) && info.engine
                == "wasmtime"@ && info.engine_version == "25.0.3"@ && info.wasi_version == "0.2.x"@
                && c.application_commitment == hash::sha256_digest(
                commitment::preimage(
                    c.components,
                    graph,
                    c.granted_capabilities,
                    info,
                    c.wasi_runtime_grant,
                ),
            )
        }),
{
}

} // verus!
