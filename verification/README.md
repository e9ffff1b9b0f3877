# atlas_sphere

Verified core logic of the X3 / Atlas Sphere chain services, written in
Verus.

- `src/` — the library, verified by Verus. Its functions carry contracts
  that Verus proves, except where a result comes only from a backend that
  the embedding code supplies (the session store's provider) or from a
  shared atomic counter (the RPC client's request ids); those functions
  are verified to be free of errors but state nothing of that result. It
  covers the sBPF interpreter and bytecode verifier, the cross-VM and
  Ethereum bridges with their SCALE codecs, fees, the dispute court, the
  HotStuff block step, MIR optimisation passes, swap routing, accounting,
  route finding, swarm metrics, RPC argument decoding and the services'
  request decisions. Hashes, hex, base58 and 256-bit arithmetic come from
  their crates through small trusted wrappers whose contracts say what the
  crates document.
- `tests/` — tests run against the compiled library.
- `app/` — the code around the library that Verus does not see: network and
  process I/O, clocks, locks, JSON and floating-point values.
