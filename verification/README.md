# quicktrad

The core of a minimal quick-translation popup, verified with Verus.

- `src/` — the verified library: settings and their rules (`config`),
  translation provider choice and request/answer shaping (`translation`),
  text normalization for speech (`normalizer`, `pattern`, `keyorder`),
  usage accounting and the UTC month start (`usage`), window rules
  (`window`), headless command parsing (`headless`), speech decisions
  (`tts`), and shared helpers (`text`, `table`).
- `app/` — the program around it: reading and writing `config.toml`, web
  requests, the SQLite usage log, the headless commands and the Tauri
  window.
- `tests/` — tests of the library.
