# codex_context

What a coding agent shows to its model, and how the rest stays recoverable: bounded tool outputs,
stored artifacts and their controls, file windows, the skill catalog, and the history that
carries them.

The library under `src/` is verified with Verus: every executable function states in `requires`
and `ensures` what it returns or changes, over mathematical models of its data, and the laws that
relate several functions are public proof functions.

- Outputs: `tool_output`, `content_items`, `projector`, `stored_items`, `display_events`,
  `exec_metadata`, `head_tail_buffer`
- Stored outputs: `artifact_id`, `artifact_search`, `read_tool_output`,
  `read_tool_output_window`, `line_positions`, `artifact_control_ids`, `inheritance`, `retention`
- Files: `read_file_window`, `file_windows`, `read_file_snapshot`, `read_file`,
  `read_file_response`, `read_file_ledger`, `read_file_dedup`, `read_file_output`, `tool_specs`
- Skills: `skill_policy`, `skill_lines`, `skill_render`, `authority_coverage`
- History: `history`, `rollout`, `argument_repair`, `protocol`
- Foundations: `text`, `numbers`, `utf8_scan`, `json`, `io_error`

Trusted are the calls into `serde_json`, `base64` and `sha2`, `core::str::from_utf8` and
`String::push`; each stands behind one function whose documentation says what is believed of it.

`app/` is ordinary Rust around the library: file systems, artifact stores, telemetry and the
persisted forms of its types. `tests/` runs the library on concrete values.
