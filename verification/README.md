# embral

The decision logic of a desktop meeting recorder and dictation tool, written
in Verus: the functions in `src/` carry contracts that Verus proves; the
few calls into std, `serde_json`, `chrono` and `toml_edit` sit behind
trusted items whose contracts say what those crates do.

- `src/autodetect`: the call-detection state machine, the app allowlist
  matcher, the poller's detector and the silence check-in.
- `src/commands`: recording start and stop gates, live speaker labels,
  stream-failure routing, finalize naming, library search rows, model
  downloads, settings reset.
- `src/config.rs`, `src/llm.rs`, `src/janitor.rs`: transcription lanes,
  the built-in model's sidecar rules, retention.
- `src/dictation.rs`: the hotkey, the overlay text and delivery.
- `src/support.rs`: meeting documents (frontmatter, attendees, transcript
  layout) and paths inside the storage directory.
- `src/mcp_clients.rs`: MCP client registration: the route to each client,
  its messages, and the config edits done through `serde_json` and
  `toml_edit`.
- `src/platform`: what the platform scans decide (audio streams, focused
  window, power, theme).
- `src/text.rs`, `src/json.rs`: string primitives and the `serde_json`
  calls, each behind a contract.

`app/` is the command-line front: file, process and system access. `tests/` exercises the library.
