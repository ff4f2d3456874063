# nomad_rs

A cluster scheduler in the style of HashiCorp Nomad, with its core written in
Verus and proved against its specifications.

## Layout

- `src/` — the verified library. Job specifications and their validation,
  the cluster state store and its state machine, the single-node consensus
  node and its log, the evaluation queue, placement (`scheduler`,
  `ranking`), the RPC request handler and frame format, gossip membership
  (`membership::Roster`), task and allocation runners, drivers' command
  lines, cron schedules (`periodic`), ACLs, the HTTP API's routing, and the
  agent, client and server lifecycles. Calls into outside crates
  (`serde_json`, `url`, `rand`, `chrono`) and into std functions without a
  vstd specification sit behind small `#[verifier::external_body]` wrappers
  whose contracts are documented where they stand.
- `tests/` — ordinary Rust tests of the library.
- `app/` — the `nomad-rs` binary: command line, configuration file and
  environment, logging, TCP/TLS transport, UDP gossip, child processes and
  containers, disk persistence, HTTP download, floating-point ranking, and
  the async loops that drive the library's state machines.
