# baboon

The editor logic of Baboon, a tag and package workbench, as a Verus library.

- `src/` is verified: the tag browser's keys and ordering (`browser`,
  `order`), the Blam! import panel (`blam`), Chimp package headers and their
  edits (`names`, `header`, `usage`), package classification, type counts,
  referrer sweeps and the JSON tree of decoded properties (`package`), the
  JSON pane's colouring and line split (`json_text`), texture and mesh
  extraction rules and the texture viewer's levels (`extract`, `texture`),
  cell reading, level-export bookkeeping and vertex welding (`level`), the cache import
  window (`cache_import`), icon lookup (`icons`), and the audition cache
  (`audio`). Text helpers live in `text`.
- `app/` is the unverified glue: reading folders, clocks, floating-point
  display values, platform path handling, and `serde_json`.
- `tests/` runs the library on concrete values.
