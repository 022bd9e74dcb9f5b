# foundry_compilers

A verified core of a toolkit that drives Solidity and Vyper compilers
(`solc`, `resolc`, `zksolc`, `vyper`): the data it reads and writes, and the
rules by which it decides what to compile. Verus proves every function in
`src/` against its contract; calls into outside crates (`semver`, `md-5`,
`alloy-primitives`, `solar-parse`) stand behind small trusted wrappers whose
contracts say what those crates document.

## Layout

- `src/text.rs`, `src/paths.rs`, `src/order.rs`: characters, Unix paths taken
  by their components, and the orders in which sorted maps keep string and path
  keys.
- `src/version.rs`: semantic versions and version requirements.
- `src/sourcemap.rs`: the compressed source-map format of solc, parsed and
  printed.
- `src/info.rs`, `src/ast.rs`, `src/vyper.rs`, `src/artifacts.rs`: contract
  identifiers, AST node types and locations, Vyper diagnostics, artifact ids.
- `src/sources.rs`, `src/filter.rs`, `src/buildinfo.rs`: sources, which of
  them are compiled in full, sparse output selection, build contexts.
- `src/contracts.rs`, `src/output.rs`, `src/selection.rs`: compiled contracts
  by file and name, the output of one compiler run, and output selections, all
  kept as sorted maps.
- `src/iface.rs`, `src/preprocess.rs`: the interface representation of a
  source (what stays when bodies are removed) and the rewriting of test sources
  that deploy contracts by bytecode.
- `src/dual.rs`, `src/dual_deps.rs`: contracts compiled twice (EVM and
  PolkaVM) and looked up by either bytecode, with their factory dependencies.
- `src/declarations.rs`: what a source declares (version pragma, imports with
  their aliases, contract names, SPDX license) read from its text, for sources
  that do not parse.
- `src/resolc.rs`, `src/parse.rs`, `src/profiles.rs`, `src/multi.rs`:
  compiler versions and installation steps, what a Solidity source declares
  (version pragma, imports, contracts, libraries, as read from its syntax
  tree), compilation profiles, and telling a source's language from its
  extension.
- `app/`: file and process I/O around the library, and copies of its types
  with serde derives.
- `tests/`: tests of the library on concrete values.
