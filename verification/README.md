# fywaf

A web application firewall: an HTTP/1.1 reverse proxy that asks a WebAssembly
module about each request, and tools for the rules that such modules evaluate.
The library is verified with Verus.

## Layout

- `src/` is the verified library.
  - `text`, `number`, `ordered`, `bytes`: characters, numbers, ordered maps, bytes.
  - `crs`: rule files of the core rule set: reading them (`parser`), what rules
    match (`operators`, `transforms`), judging requests (`engine`), and what
    holds of all rules and rule files (`laws`, `file_laws`).
  - `secrule_parser`, `import_crs`, `compat`: importing `SecRule` files into rule
    sets, and reporting on them.
  - `ruleset`, `snapshot`: rule sets, and the binary snapshots of them.
  - `config`: the configuration, and what is asked of it.
  - `http`, `proxy`: reading requests, passing them on, refusing them.
  - `wasm`, `engine`: running modules, and what their decisions amount to.
- `tests/` holds the tests.
- `app/` is the program around the library: arguments, files, sockets, JSON and
  YAML.

## Modules

A module exports its `memory` and three functions:

1. `get_req_ptr() -> i32`: where the request goes, as a JSON text.
2. `decide(req_len: i32) -> i32`: decides, and gives the length of the decision.
3. `get_result_ptr() -> i32`: where the decision is, as a JSON text.

Every request goes to a fresh instance, with fuel for a million units of work up
to the decision, and as much again to say where it is. A request or a decision
has at most 65536 bytes. A decision without a valid
status has 200 where it allows and 403 where it does not.

## Limits

HTTP/1.1 only, no TLS, no chunked request bodies, and only `http://` upstreams.
