# workd

The work-node runtime of Vimana, as a library verified with Verus, and a thin program
around it.

## Layout

- `src/names.rs`: permissive parsing and validation of service, component and pod names
  (`[domain ':'] service ['@' version ['#' pod-id]]`), with their textual forms.
- `src/text.rs`: character-level helpers shared by the parsers (separators, SemVer
  versions, hexadecimal and decimal numerals).
- `src/runtime/names.rs`: the canonical names of the runtime, whose domain is a UUID.
- `src/runtime/schema.rs`, `value.rs`, `wire.rs`: the metadata of hosted components, the
  component values they take and return, and the Protobuf wire format (varints through
  `prost`).
- `src/runtime/decode.rs`, `encode.rs`, `codec.rs`: decoding requests into component
  values and encoding responses from them, and how the two agree.
- `src/runtime/pods.rs`: the codec and the HTTP path of each method a gRPC pod serves.
- `src/runtime/state.rs`: the pod table and the lifecycle of pods
  (`Initiated → Created → Starting → Running → Stopped → Removed → Killed`).
- `src/runtime/cri.rs`, `data_plane.rs`: the IDs, states and requests of the container
  runtime interface, and how data-plane requests name their component and method.
- `src/runtime/ipam.rs`, `containers.rs`, `pool.rs`, `config.rs`: IP address management,
  the local container store, the stack-map behind pod pools, and the node's settings.
- `app/`: the program: command line and configuration file, running the IPAM plugin,
  files of the container store, and the runtime state a process holds (servers,
  addresses) beside the pod table.
- `tests/`: tests of the library.

Each public function of the library states what it returns in its `ensures`; the laws
that relate several functions (round trips of names, of container files, of scalar
payloads and fields and of messages of scalar fields, idempotent lifecycle transitions,
and so on) are public proof functions.
