//! How the orchestrator starts a workload: what it loads, what it attests of it,
//! and what it does once the evidence is out.

use crate::attestation as events;
use crate::attestation::{
    create_container_event, create_wasm_workload_event, InstancePublicKeys,
};
use crate::bundle;
use crate::bundle::unpack_bundle;
use crate::composition;
use crate::composition::{Composition, CompositionError};
use crate::confidential_transform;
use crate::confidential_transform::{is_session_workload, SessionWorkload, WorkloadError};
use crate::engine::WasmEngine;
use crate::hash;
use crate::message;
use crate::policy;
use crate::proto::attestation;
use crate::proto::attestation::{Event, WasmWorkloadLayerData};
use crate::proto::config;
use crate::proto::config::{WasmWorkloadConfig, WorkloadKind};
use crate::transform_session;
use crate::wasm_runtime;
use crate::wasm_runtime::{decode_workload_config, wasm_config};
use crate::wire;
use vstd::prelude::*;

verus! {

/// How a workload runs.
#[derive(Debug, Clone, Copy, PartialEq, Eq, Structural)]
pub enum RunMode {
    /// In a container.
    Container,
    /// As a wasm session, served over the ConfidentialTransform protocol.
    Session,
    /// As a composition of pure wasm transforms.
    Composition,
}

/// The wasm workload that an application config selects, if any. Anything that
/// does not select one, arbitrary bytes among it, is a container's config.
pub open spec fn selected_wasm(application_config: Seq<u8>) -> Option<
    config::WasmWorkloadConfigView,
> {
    let envelope = wasm_runtime::workload_config(application_config);
    if envelope.workload_kind == WorkloadKind::Wasm.number() {
        envelope.wasm
    } else {
        None
    }
}

/// How the workload that an application config selects runs.
pub open spec fn selected_mode(application_config: Seq<u8>) -> RunMode {
    match selected_wasm(application_config) {
        None => RunMode::Container,
        Some(wasm) => if wasm.entry_interface == transform_session::SESSION_IFACE@ {
            RunMode::Session
        } else {
            RunMode::Composition
        },
    }
}

/// A workload that is ready to run, together with the event that attests it.
///
/// What runs is exactly what is attested: it was loaded once, before the event
/// was made, and the claim in the event is its own.
pub struct PreparedWorkload {
    pub workload: Workload,
    pub event: Event,
}

/// A workload that is ready to run.
pub enum Workload {
    /// The bundle, left to the container runtime.
    Container,
    Session(SessionWorkload),
    Composition(Composition),
}

impl Workload {
    /// How the workload runs.
    pub open spec fn spec_mode(&self) -> RunMode {
        match self {
            Workload::Container => RunMode::Container,
            Workload::Session(_) => RunMode::Session,
            Workload::Composition(_) => RunMode::Composition,
        }
    }

    /// How the workload runs.
    #[verifier::when_used_as_spec(spec_mode)]
    pub fn mode(&self) -> (mode: RunMode)
        ensures
            mode == self.spec_mode(),
    {
        match self {
            Workload::Container => RunMode::Container,
            Workload::Session(_) => RunMode::Session,
            Workload::Composition(_) => RunMode::Composition,
        }
    }

    /// The encoded capability claim of a wasm workload.
    pub open spec fn claim(&self) -> Option<Seq<u8>> {
        match self {
            Workload::Container => None,
            Workload::Session(w) => Some(w.claim()),
            Workload::Composition(c) => Some(c.claim()),
        }
    }
}

/// The event that attests a workload.
pub open spec fn workload_event(
    workload: Workload,
    bundle: Seq<u8>,
    application_config: Seq<u8>,
    keys: InstancePublicKeys,
) -> attestation::EventView {
    match workload.claim() {
        None => events::container_event(bundle, application_config, keys),
        Some(claim) => events::wasm_workload_event(bundle, application_config, claim, keys),
    }
}

/// Why a workload could not be prepared.
#[derive(Debug)]
pub enum PrepareError {
    /// The bundle of a session workload cannot be read.
    Bundle,
    /// The session workload could not be loaded.
    Session(WorkloadError),
    /// The composition could not be loaded.
    Composition(CompositionError),
}

/// What comes of preparing a workload.
pub open spec fn prepared_as(
    application_config: Seq<u8>,
    bundle: Seq<u8>,
    r: Result<Workload, PrepareError>,
) -> bool {
    match selected_wasm(application_config) {
        None => r matches Ok(w) && w is Container,
        Some(wasm) => if wasm.entry_interface == transform_session::SESSION_IFACE@ {
            match bundle::unpacked_from(bundle, 0, Map::empty()) {
                None => r matches Err(e) && e is Bundle,
                Some(files) => match r {
                    Ok(w) => w matches Workload::Session(s)
                        && confidential_transform::session_load(
                        wasm,
                        files,
                        Ok::<SessionWorkload, WorkloadError>(s),
                    ),
                    Err(e) => e matches PrepareError::Session(e)
                        && confidential_transform::session_load(
                        wasm,
                        files,
                        Err::<SessionWorkload, WorkloadError>(e),
                    ),
                },
            }
        } else {
            match r {
                Ok(w) => w matches Workload::Composition(c) && composition::bundle_load(
                    wasm,
                    bundle,
                    Ok::<Composition, CompositionError>(c),
                ),
                Err(e) => e matches PrepareError::Composition(e) && composition::bundle_load(
                    wasm,
                    bundle,
                    Err::<Composition, CompositionError>(e),
                ),
            }
        },
    }
}

/// Loads the workload that the (measured) application config selects.
fn load_workload(engine: WasmEngine, application_config: &[u8], container_bundle: &[u8]) -> (r:
    Result<Workload, PrepareError>)
    ensures
        prepared_as(application_config@, container_bundle@, r),
{
    let envelope = decode_workload_config(application_config);
    let wasm: &WasmWorkloadConfig = match wasm_config(&envelope) {
        Some(wasm) => wasm,
        None => return Ok(Workload::Container),
    };
    assert(selected_wasm(application_config@) == Some(wasm@));
    let unpacked = unpack_bundle(container_bundle);
    if is_session_workload(wasm) {
        let files = match unpacked {
            Ok(files) => files,
            Err(_) => return Err(PrepareError::Bundle),
        };
        match SessionWorkload::load_with_engine(engine, wasm, &files) {
            Ok(workload) => Ok(Workload::Session(workload)),
            Err(e) => Err(PrepareError::Session(e)),
        }
    } else {
        let files = match unpacked {
            Ok(files) => files,
            Err(_) => return Err(PrepareError::Composition(CompositionError::Bundle)),
        };
        match Composition::load_with_engine(engine, wasm, &files) {
            Ok(composition) => Ok(Workload::Composition(composition)),
            Err(e) => Err(PrepareError::Composition(e)),
        }
    }
}

/// Decides from the (measured) application config how the workload runs, loads
/// it on the engine, and makes the event that attests it. A container is left to its runtime,
/// over the bytes as they are.
pub fn prepare_workload(
    engine: WasmEngine,
    application_config: &[u8],
    container_bundle: &[u8],
    instance_public_keys: &InstancePublicKeys,
) -> (r: Result<PreparedWorkload, PrepareError>)
    ensures
        match r {
            Ok(p) => {
                &&& prepared_as(
                    application_config@,
                    container_bundle@,
                    Ok::<Workload, PrepareError>(p.workload),
                )
                &&& p.event@ == workload_event(
                    p.workload,
                    container_bundle@,
                    application_config@,
                    *instance_public_keys,
                )
            },
            Err(e) => prepared_as(
                application_config@,
                container_bundle@,
                Err::<Workload, PrepareError>(e),
            ),
        },
{
    let workload = match load_workload(engine, application_config, container_bundle) {
        Ok(workload) => workload,
        Err(e) => return Err(e),
    };
    let event = match &workload {
        Workload::Container => create_container_event(
            container_bundle,
            application_config,
            instance_public_keys,
        ),
        Workload::Session(w) => create_wasm_workload_event(
            container_bundle,
            application_config,
            vstd::slice::slice_to_vec(w.claim_bytes()),
            instance_public_keys,
        ),
        Workload::Composition(c) => create_wasm_workload_event(
            container_bundle,
            application_config,
            vstd::slice::slice_to_vec(c.claim_bytes()),
            instance_public_keys,
        ),
    };
    Ok(PreparedWorkload { workload, event })
}

// ---------------------------------------------------------------------------
// After the evidence
// ---------------------------------------------------------------------------

/// Where an instance has the keys of its group from.
#[derive(Debug, Clone, Copy, PartialEq, Eq, Structural)]
pub enum KeyProvisioningRole {
    Unspecified,
    /// It makes them.
    Leader,
    /// It asks the leader for them.
    Follower,
}

/// Whether an instance makes the keys of its group.
pub fn makes_group_keys(role: KeyProvisioningRole) -> (r: bool)
    ensures
        r == (role is Leader),
{
    match role {
        KeyProvisioningRole::Leader => true,
        _ => false,
    }
}

/// What the orchestrator does next.
#[derive(Debug, Clone, Copy, PartialEq, Eq, Structural)]
pub enum Step {
    /// Bind the socket, tell the launcher that the workload is ready, and serve
    /// sessions.
    ServeSessions,
    /// Serve the composition.
    ServeComposition,
    /// Ask for the keys of the group.
    RequestGroupKeys,
    /// Start the container and the services for it.
    RunContainer,
    /// Give up: a container needs group keys, and there are none.
    GroupKeysMissing,
}

/// What follows once the evidence is out. A wasm workload runs in the orchestrator
/// itself, alone, and needs no group keys; a container needs them.
pub open spec fn step_after_evidence(mode: RunMode, role: KeyProvisioningRole, keys: bool) -> Step {
    match mode {
        RunMode::Session => Step::ServeSessions,
        RunMode::Composition => Step::ServeComposition,
        RunMode::Container => if keys {
            Step::RunContainer
        } else if role is Follower {
            Step::RequestGroupKeys
        } else {
            Step::GroupKeysMissing
        },
    }
}

/// What follows once the evidence is out. `group_keys` says whether the keys of
/// the group are at hand.
pub fn next_step(mode: RunMode, role: KeyProvisioningRole, group_keys: bool) -> (step: Step)
    ensures
        step == step_after_evidence(mode, role, group_keys),
{
    match mode {
        RunMode::Session => Step::ServeSessions,
        RunMode::Composition => Step::ServeComposition,
        RunMode::Container => {
            if group_keys {
                Step::RunContainer
            } else {
                match role {
                    KeyProvisioningRole::Follower => Step::RequestGroupKeys,
                    _ => Step::GroupKeysMissing,
                }
            }
        },
    }
}

// ---------------------------------------------------------------------------
// Laws
// ---------------------------------------------------------------------------

/// What is prepared runs the way that the application config selects.
pub proof fn law_config_selects_the_mode(
    application_config: Seq<u8>,
    bundle: Seq<u8>,
    workload: Workload,
)
    requires
        prepared_as(application_config, bundle, Ok::<Workload, PrepareError>(workload)),
    ensures
        workload.mode() == selected_mode(application_config),
{
}

/// Bytes that are no workload envelope select the container path, whatever else
/// they are, and the container path cannot fail.
pub proof fn law_foreign_config_is_a_container(
    application_config: Seq<u8>,
    bundle: Seq<u8>,
    r: Result<Workload, PrepareError>,
)
    requires
        message::decoded::<config::OrchestratorWorkloadConfig>(
            application_config,
            wire::RECURSION_LIMIT as nat,
        ) is None,
        prepared_as(application_config, bundle, r),
    ensures
        r matches Ok(w) && w is Container,
{
}

/// What runs is what is attested: whoever decodes the event of a wasm workload
/// finds the claim of the very workload that runs.
pub proof fn law_attested_claim_is_that_of_what_runs(
    application_config: Seq<u8>,
    bundle: Seq<u8>,
    keys: InstancePublicKeys,
    workload: Workload,
)
    requires
        prepared_as(application_config, bundle, Ok::<Workload, PrepareError>(workload)),
        selected_wasm(application_config) is Some,
        message::encoding::<Event>(
            workload_event(workload, bundle, application_config, keys),
        ).len() <= u64::MAX,
        message::encoding::<WasmWorkloadLayerData>(
            events::wasm_workload_data(
                bundle,
                application_config,
                workload.claim()->0,
                keys,
            ),
        ).len() <= u64::MAX,
    ensures
        policy::payload_of::<WasmWorkloadLayerData>(
            events::WASM_WORKLOAD_LAYER_DATA_TYPE_URL@,
            message::encoding::<Event>(workload_event(workload, bundle, application_config, keys)),
        ) matches Ok(data) && workload.claim() == Some(data.capability_claim) && data.bundle
            == Some(events::measured(bundle)) && data.config == Some(
            events::measured(application_config),
        ),
{
    events::law_wasm_workload_event_round_trips(
        bundle,
        application_config,
        workload.claim()->0,
        keys,
    );
}

/// A leader has its keys from the start and a follower asks for them once, so
/// neither ever lacks them; a wasm workload runs without.
pub proof fn law_group_keys_are_missing_only_without_a_role(
    mode: RunMode,
    role: KeyProvisioningRole,
)
    ensures
        step_after_evidence(mode, role, role is Leader) is GroupKeysMissing <==> mode is Container
            && role is Unspecified,
        step_after_evidence(mode, role, true) !is GroupKeysMissing,
        step_after_evidence(mode, role, true) !is RequestGroupKeys,
{
}

/// What an envelope selects: wasm (2) where it says so and holds a wasm configuration,
/// and a container otherwise, whatever else it holds. A wasm workload is a session where
/// its entry is the session interface, and a composition otherwise.
pub proof fn law_envelope_selects_the_workload(envelope: config::OrchestratorWorkloadConfigView)
    requires
        message::encoding::<config::OrchestratorWorkloadConfig>(envelope).len() <= u64::MAX,
    ensures
        ({
            let bytes = message::encoding::<config::OrchestratorWorkloadConfig>(envelope);
            &&& envelope.workload_kind != 2 ==> selected_wasm(bytes) is None && selected_mode(bytes)
                == RunMode::Container
            &&& envelope.workload_kind == 2 ==> selected_wasm(bytes) == envelope.wasm && (
            match envelope.wasm {
                None => selected_mode(bytes) == RunMode::Container,
                Some(wasm) => selected_mode(bytes) == (if wasm.entry_interface
                    == "cfc:transform/session@0.1.0"@ {
                    RunMode::Session
                } else {
                    RunMode::Composition
                }),
            })
        }),
{
    wasm_runtime::law_workload_config_round_trip(envelope);
}

/// A workload of the selected kind runs what the bundle holds: a session the file that
/// its configuration names, a composition the files of its components. A wasm workload
/// is not prepared from a bundle that cannot be read; a container's bundle is not read.
pub proof fn law_prepared_workload_is_loaded_from_the_bundle(
    application_config: Seq<u8>,
    bundle: Seq<u8>,
    r: Result<Workload, PrepareError>,
)
    requires
        prepared_as(application_config, bundle, r),
    ensures
        selected_wasm(application_config) is None ==> (r matches Ok(w) && w is Container),
        selected_wasm(application_config) is Some && bundle::unpacked_from(bundle, 0, Map::empty())
            is None ==> r is Err,
        selected_wasm(application_config) matches Some(wasm) ==> (bundle::unpacked_from(
            bundle,
            0,
            Map::empty(),
        ) matches Some(files) ==> {
            &&& r matches Ok(Workload::Session(s)) ==> confidential_transform::session_load(
                wasm,
                files,
                Ok::<SessionWorkload, WorkloadError>(s),
            ) && wasm.entry_interface == "cfc:transform/session@0.1.0"@
            &&& r matches Ok(Workload::Composition(c)) ==> composition::files_load(
                wasm,
                files,
                Ok::<Composition, CompositionError>(c),
            ) && wasm.entry_interface != "cfc:transform/session@0.1.0"@
            &&& r matches Err(PrepareError::Session(e)) ==> confidential_transform::session_load(
                wasm,
                files,
                Err::<SessionWorkload, WorkloadError>(e),
            )
            &&& r matches Err(PrepareError::Composition(e)) ==> composition::files_load(
                wasm,
                files,
                Err::<Composition, CompositionError>(e),
            )
            &&& !(r matches Ok(Workload::Container))
        }),
{
}

/// The event of a prepared workload describes it: the container event of a container,
/// the wasm event with the claim otherwise; in either the digests are those of the
/// bundle and of the configuration as they came, and the keys are the instance's.
#[verifier::rlimit(40)]
pub proof fn law_event_describes_the_prepared_workload(
    workload: Workload,
    bundle: Seq<u8>,
    application_config: Seq<u8>,
    keys: InstancePublicKeys,
)
    requires
        message::encoding::<Event>(
            workload_event(workload, bundle, application_config, keys),
        ).len() <= u64::MAX,
        workload_event(workload, bundle, application_config, keys).event matches Some(any)
            ==> any.value.len() <= u64::MAX,
    ensures
        workload is Container ==> (policy::payload_of::<attestation::ContainerLayerData>(
            "type.googleapis.com/oak.attestation.v1.ContainerLayerData"@,
            message::encoding::<Event>(workload_event(workload, bundle, application_config, keys)),
        ) matches Ok(data) && {
            &&& data.bundle matches Some(d) && d.sha2_256 == hash::sha256_digest(bundle)
            &&& data.config matches Some(d) && d.sha2_256 == hash::sha256_digest(application_config)
            &&& data.hybrid_encryption_public_key == keys.encryption_public_key@
            &&& data.signing_public_key == keys.signing_public_key.point()
            &&& data.session_binding_public_key == keys.session_binding_public_key.point()
        }),
        !(workload is Container) ==> (policy::payload_of::<WasmWorkloadLayerData>(
            "type.googleapis.com/oak.attestation.v1.WasmWorkloadLayerData"@,
            message::encoding::<Event>(workload_event(workload, bundle, application_config, keys)),
        ) matches Ok(data) && {
            &&& data.bundle matches Some(d) && d.sha2_256 == hash::sha256_digest(bundle)
            &&& data.config matches Some(d) && d.sha2_256 == hash::sha256_digest(application_config)
            &&& data.hybrid_encryption_public_key == keys.encryption_public_key@
            &&& data.signing_public_key == keys.signing_public_key.point()
            &&& data.session_binding_public_key == keys.session_binding_public_key.point()
            &&& workload matches Workload::Session(s) ==> data.capability_claim == s.claim()
            &&& workload matches Workload::Composition(c) ==> data.capability_claim == c.claim()
        }),
{
    match workload {
        Workload::Container => {
            events::law_container_event_describes_the_instance(bundle, application_config, keys);
        },
        Workload::Session(s) => {
            events::law_wasm_workload_event_describes_the_instance(
                bundle,
                application_config,
                s.claim(),
                keys,
            );
        },
        Workload::Composition(c) => {
            events::law_wasm_workload_event_describes_the_instance(
                bundle,
                application_config,
                c.claim(),
                keys,
            );
        },
    }
}

/// A wasm workload is served at once, whatever the role and whatever keys there are. A
/// container runs as soon as there are group keys; without them a follower requests
/// them, and nobody else can go on.
pub proof fn law_only_containers_wait_for_group_keys(role: KeyProvisioningRole, keys: bool)
    ensures
        step_after_evidence(RunMode::Session, role, keys) == Step::ServeSessions,
        step_after_evidence(RunMode::Composition, role, keys) == Step::ServeComposition,
        step_after_evidence(RunMode::Container, role, true) == Step::RunContainer,
        step_after_evidence(RunMode::Container, KeyProvisioningRole::Follower, false)
            == Step::RequestGroupKeys,
        step_after_evidence(RunMode::Container, KeyProvisioningRole::Leader, false)
            == Step::GroupKeysMissing,
        step_after_evidence(RunMode::Container, KeyProvisioningRole::Unspecified, false)
            == Step::GroupKeysMissing,
{
}

/// The mode of a workload is what it is, and its claim is its own; a container has none.
pub proof fn law_mode_and_claim_are_those_of_the_workload(workload: Workload)
    ensures
        workload.mode() == RunMode::Container <==> workload is Container,
        workload.mode() == RunMode::Session <==> workload is Session,
        workload.mode() == RunMode::Composition <==> workload is Composition,
        workload is Container <==> workload.claim() is None,
        workload matches Workload::Session(s) ==> workload.claim() == Some(s.claim()),
        workload matches Workload::Composition(c) ==> workload.claim() == Some(c.claim()),
{
}

} // verus!
