# devscribe

The editor-side logic of the DevScribe code editor, written in Verus: every
function in `src/` carries a contract that Verus proves.

- `src/text.rs`, `src/wrap.rs`, `src/layout.rs`: UTF-8 offsets, soft-wrap
  row starts, and the cell arithmetic of the editor canvas (visible lines,
  selection / match / diagnostic columns, highlight segments per row).
- `src/input.rs`, `src/ruler.rs`: the canvas's input decisions (key
  bindings, clicks, drags, click streaks) as a state machine with a `step`
  relation, and the overview ruler's press/drag/release handling.
- `src/json.rs`, `src/chat.rs`, `src/sessions.rs`: the JSON tree view's rows,
  the chat transcript (tool summaries, mentions, grouping, layout, status
  lines) and the session picker's filter.
- `src/diff.rs`, `src/search.rs`, `src/sidebar.rs`, `src/status.rs`,
  `src/settings.rs`, `src/glyphs.rs`, `src/signature.rs`, `src/peek.rs`:
  row planning and labels of the diff view, project search, explorer and
  Changes panel, status bar, settings, popups.
- `src/paths.rs`: the few `std::path` calls, behind trusted wrappers whose
  results are named rather than restated; `serde_json` writes JSON string
  literals the same way, behind one wrapper in `src/json.rs`.

`app/` holds what Verus does not take: pixel geometry in floating point and
the conversion between `serde_json::Value` and the library's `JsonValue`.
`tests/` exercises the library on concrete values.
