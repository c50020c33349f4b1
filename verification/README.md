# llm_wiki

The logic of a local wiki server, written in Rust and verified with Verus.

- `src/` is the verified library. `watch`, `glob` and `paths` say which files of a project
  are watched; `queue`, `plan`, `process`, `machine`, `sync` and `watcher` keep the queue of
  file changes and work it off; `related`, `extract`, `pdf`, `picture` and `fs_ops` read
  pages, documents and directories; `users`, `user_data`, `session_bus` and `api` are what the
  server answers requests with. `queue_laws`, `process_laws`, `run_laws`, `rescan_laws`,
  `pdf_laws` and `user_data_laws`, and the functions named `law_…` elsewhere, state what holds
  across several functions. `text`, `order`, `digest`, `json` and `clock` are what the rest is
  made of.
- `app/` is ordinary Rust around it: files, threads and HTTP.
- `tests/` runs the library.
