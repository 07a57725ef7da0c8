# rust_and_vulkan

Ground-segment tooling for a small satellite, with its logic verified by
Verus: PUS telecommand preparation, Yamcs request addressing and answer
reading, ECSS automation plans (validation, time tokens, the commander line
protocol and the run state machine), BEACON telemetry reading, and the pieces
of the Vulkan/SDL front end that are plain computation.

## Layout

- `src/` — the verified library.
  - `text.rs`: character-level string operations with specifications
    (trimming, prefixes, segments, decimal text, integer parsing, order).
  - `json.rs`: the JSON document model that the other modules read and build.
  - `error.rs`: the error type of the Yamcs layer.
  - `xtce_types.rs`, `commands.rs`: function and housekeeping identifiers,
    and the builders of every PUS command.
  - `yamcs_client.rs`: client configuration, request addresses, command-name
    resolution, MDB definition reading and final-argument assembly, archive
    listings and verification polling decisions.
  - `ecss_automation.rs`: automation plans, their validation, time tokens,
    the commander protocol, and the state machine that drives a run.
  - `beacon.rs`: BEACON packet reading, generation times and field names.
  - `graphics.rs`, `input.rs`: memory-type selection, formats, SPIR-V words,
    and keyboard handling of the SDL3 front end.
- `tests/` — tests of the library on concrete values.
- `app/` — the program around it: HTTP and UDP exchanges, file reading,
  serde forms of the library's types, the plan runner and the egui dashboard.
