# tunnet

The decision logic of the Tunnet mesh VPN agent, its command-line client and
its control plane, written in Verus. Verus checks all of `src/`: the public functions carry
contracts that state what they compute, the few small helpers without one
are still checked free of panics and overflow, and the laws that relate
several functions (`law_*` proof functions) are proved there too.

Layout:

- `src/` — the verified library. Data plane: `frame` (wire format),
  `segment` and `transmit` (segmentation and the per-packet transmit
  cursor), `qos` (flow scheduler), `packet`, `ipv4`, `meta`, `slicing`
  (packet parsing), `reject` (reject replies), `dataplane` (per-packet
  decisions), `loops` (the connection reader and the per-peer pump as
  step functions), `tun`, `pool`, `routes`, `underlay`. Agent: `startup`, `dns`,
  `auto_update`, `actors`, `direct`. Control plane: `relay`,
  `service_auth`, `ca_crypto`; inbound connections: `admission`. Client: `device`, `labels`, `policy_cmd`,
  `posture_cmd`, `send_cmd`, `api_path`, `output`, `text`. Calls into
  outside crates (etherparse, hex, base64, sha2, hmac, aes-gcm, serde_json,
  jiff) sit behind small trusted wrappers whose contracts name or state
  what those crates compute.
- `tests/` — tests run against the compiled library with the real outside
  crates linked.
- `app/` — ordinary Rust around the library: argument parsing, environment
  and file access, JSON, and the loops that perform the library's decided
  actions.
