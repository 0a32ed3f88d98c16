# Mercury

Mercury is a fast, minimal, file-based API client: a workspace is a folder of
JSON request files and `.env` environments, edited in a desktop window.

This crate holds its logic as a library verified with Verus: every function in
`src/` carries a `requires`/`ensures` contract that Verus proves, and the laws
the client relies on are stated as proof functions:

- header text and the Auth tab stay in sync (`kv::law_auth_read_after_set`);
- the query-params table and the URL stay in sync (`query_sync::law_query_params_roundtrip`);
- a generated cURL command reads back as the request (`curl::law_generate_parse_roundtrip`);
- an imported environment file reads back as its variables (`env_readback::law_env_file_reads_back`);
- header maps are sorted and read back what was written (`model::law_header_map_read_after_write`);
- environments read back what was written (`vars::law_env_read_after_write`);
- highlighted JSON and XML keep their text (`highlight::law_json_runs_keep_text`, `highlight::law_xml_runs_keep_text`);
- keyboard shortcuts never collide (`ui::law_shortcuts_unique`).

Layout:

- `src/` — the verified library (text helpers, request model, key/value
  text, cURL, variables, responses, import planning, highlighting, UI state
  and tables).
- `tests/` — tests of the library on concrete values.
- `app/` — the desktop program around it: the egui window, file and network
  I/O, file watching, dialogs and the serde copies of the library's types.
