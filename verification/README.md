# riffle

The decisions of Riffle, a culling app for RAW files, as a library verified
with Verus: the culling keymap and its stored overrides, the sidecar format
rules, the preview payload layouts, the index's reconciliation and eviction
rules, the scan and update flows, the folder tree and the MCP judgment
requests.

- `src/` is the library. Every function there has a contract that Verus
  proves; the few calls into std or outside crates stand behind small
  trusted wrappers whose doc comments say what they claim. The `law_*` proof
  functions state what holds across calls (what a stored keymap reads back
  as, what every edit keeps, what a finished scan frees).
- `tests/` runs the library on concrete values.
- `app/` is the application around it: the Tauri commands, SQLite, the file
  watcher, the MCP server and the command-line tools, which hand the library
  plain values and act on what it returns.
