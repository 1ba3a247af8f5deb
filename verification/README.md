# mtg_engine

The networking and command-line core of a Magic: The Gathering engine,
written in Verus: every function under `src/` carries a contract that Verus
proves.

- `src/` — the verified library: the wire protocol values, the server's
  lobby, the remote and local choice codecs, the client's shared network
  state, the shadow-game session decisions, the card-script (SVar) parser,
  sync debugging reports, card statistics and export planning, and the
  command-line parsers.
- `tests/` — tests that run the compiled library.
- `app/` — the command-line front end: argument handling, files, the host's
  memory readings and the blocking waits around the shared network state.
  The rules engine and the WebSocket transport are not part of this crate.
