# confined_wasm

An orchestrator for confined WebAssembly workloads, verified with Verus.

A workload is a composition of components, or a session component that is driven
over the ConfidentialTransform protocol. The orchestrator selects it from the
measured application config, loads it once, derives from the very components that
will run a *capability claim* (what they can reach, and what is denied to them),
and puts that claim into the attestation evidence. Inputs are decrypted with keys
that were released on the strength of that evidence.

What is proved, among other things:

* The claim reports a property as granted exactly where a component imports it from
  the host and the WASI grant backs it, and as denied everywhere else
  (`capability`).
* The order in which a manifest lists things does not matter to the commitment, and
  the committed bytes determine the composition (`capability`, `commitment`).
* A composition that loads has no function left to the host, and every link of an
  instance leads to the declared producer's function of the same name. Each failure to
  load says what is missing, so that a composition loads wherever the engine compiles
  and starts its components (`composition`). It can be ordered exactly where no
  component feeds itself (`wasm_runtime`, `topology`).
* An invocation calls the entry function with the given bytes; a session calls its
  guest with the plaintext of each write and with nothing of a write that is refused
  (`host`, `confidential_transform`).
* What a guest emits is kept in order and comes back byte for byte, once, when the
  session is finalized (`emissions`, `transform_session`).
* The WASI context that a session's guest runs under allows what the attested grant
  says (`wasi`, `transform_session`).
* What runs is what is attested, and a verifier extracts the keys that went in
  (`orchestrator`, `attestation`, `policy`).
* Messages survive their encoding (`wire`, `message`, `proto`).

## Layout

* `src/`: the verified library.
  * `wire`, `message`, `proto`: protobuf messages, from varints up.
  * `order`, `canonical`, `text`, `hash`: the vocabulary of canonical encodings.
  * `compiled`, `runtime`, `wasi_context`: the objects of the engine, with records of
    what was done with them that the outside calls alone set.
  * `engine`, `host`, `wasi`: components, instances and what they are linked to.
  * `capability`, `commitment`: claims.
  * `bundle`, `topology`, `wasm_runtime`, `composition`: compositions.
  * `emissions`, `transform_session`, `transform_crypto`, `protocol`,
    `confidential_transform`: sessions.
  * `attestation`, `policy`: events and how they are verified.
  * `orchestrator`, `logging`: starting up.
  * `guest`: the logic of the example guests.
* `tests/`: tests against real components, ciphers and archives.
* `app/`: the process around the library: command line, transport, private keys.

The outside calls that the library makes are wrapped one by one. Each wrapper says
in its doc comment what is claimed of the call without proof: that the engine calls
the function that it is handed, for example, is such a claim, and which function it is
handed is proved.
