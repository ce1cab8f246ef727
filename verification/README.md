# astral_rust_core

The core of Astral's Rust bridge, verified with Verus: LAN game discovery
over multicast, multicast sender bookkeeping, EasyTier event and status
rendering, application RPC plumbing and local game process selection.

- `src/` is the verified library. `text` holds the string utilities the
  parsers and renderers share; `lan`, `multicast`, `events`, `network`,
  `instance`, `rpc`, `app_rpc_status` and `process` follow the features.
- `app/` is the ordinary Rust around it: Tokio runtimes and tasks, sockets,
  the EasyTier instance manager, the Win32 process tables and the
  Flutter-facing functions.
- `tests/` runs the library on concrete values.
