# mesh_llm

Tailnet discovery, doctor reporting and invite-token source resolution for
MeshLLM, written in Verus: each rule is a spec function, each function states
its result over those spec functions, and the laws that relate functions are
public proof functions.

- `src/` is the verified library. `tailnet`, `addresses`, `probe`, `discovery`
  and `order` decide which Tailscale peers are trusted, where they are probed
  and how the answers are listed; `doctor_report`, `doctor_lines` and
  `split_doctor` build the doctor reports and their console lines;
  `join_sources` resolves invite tokens from their sources; `discover_output`,
  `stop` and `api` decide what the commands print and what the API routes
  answer; `text`, `url` and `clock` hold the text, URL and clock primitives and
  the std and `urlencoding` calls behind them.
- `app/` is the unverified I/O around it: running `tailscale status`, the HTTP
  probes, reading the environment and token files, writing diagnostic bundles,
  and the JSON forms of the reports.
- `tests/` runs the library on concrete values.
