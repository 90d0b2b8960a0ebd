# codex_switch

The rules by which the configuration of Codex is switched between providers, proved in Verus: what is
carried over from the config that was there, which login stays, which models are listed and under
which ids, how the cache of models and the storage of the desktop application follow, and how
conversations are kept safe meanwhile.

- `src/` is the library. It works on texts, trees and plain facts. Where something has to be read or
  written, it says which step comes next and takes the outcome back.
- `app/` reads and writes files, runs the command line of Codex, opens the databases and the
  storage of the desktop application, and carries the steps out.
- `tests/` run the library from outside.

The modules whose names end in `_laws` state what holds across several functions. What the library
takes on trust of `serde_json`, `toml`, `toml_edit`, `chrono`, `base64` and std stands in small
functions of `json`, `toml_value`, `toml_doc`, `moment`, `remote_compaction`, `text` and the few
modules that need one function more, each with what it claims above it.
