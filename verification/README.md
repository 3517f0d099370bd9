# navis_extension

The verified core of the Navis extension runtime, written in Verus.

- `src/` is the library. Every function there is verified against its
  contract: manifest loading and validation (`loader`), view and zone rules
  (`host_view`), UI contribution registration (`contributions`), Gateway
  plans and provider authentication (`gateway`, `auth`), operations
  (`operation`), permissions (`permission`), event subscriptions (`event`,
  `subscriptions`), the lifecycle's decisions (`lifecycle`), what an enabled
  extension owns and how it is registered and released (`runtime`, `apply`),
  the capability context (`context`), the component registry over a
  WebAssembly engine port (`component`) and the installer's paths
  (`installer`).
- The host context (`context`) keeps the capability services and the
  backend fibers itself, in plain tables. The plugin runtime that owns and
  disposes fibers in an application is not a dependency of this crate: the
  library hands back each fiber to dispose and maps the disposal's outcome
  (`disposal_outcome`). The WebAssembly engine, the extension store, the
  sandbox and the file system reach the component registry through
  `ComponentEngine`.
- Contracts on host work speak of `HostCallLog`, a ghost record of each
  call made on a host port and of the host's answer.
- `tests/` runs the library on concrete values.
- `app/` is plain Rust around the library: manifest parsing with serde, file
  installation, HTTP header maps, and the lifecycle that locks the shared
  state, calls the hosts and stores statuses.

Verify with `verus src/lib.rs` (with the outside crates on the path); the
host subsystems are traits the embedding application implements.
