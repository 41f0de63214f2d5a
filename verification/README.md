# uninstall

Find, explain, and safely remove Linux software, however it was installed.

The rules of the tool live in the library under `src/`, written in Verus and
proved against their contracts:

- `inventory.rs`, `tools.rs`, `json.rs`, `owner.rs`, `archive.rs`,
  `appstream.rs`, `discovery.rs`: reading what each package manager
  reports (its JSON through `serde_json` and JSON pointers), which entries
  are relevant to a query, who owns a command (and in which order the
  managers are asked), how results are ranked, and how compressed logs and
  catalogues are read.
- `provenance.rs`, `history.rs`: why something is installed, from recorded
  reasons, logs, transaction history and dependency chains.
- `preview.rs`, `fingerprint.rs`: the dry run to ask for, how its output is
  read, and how risky the resulting transaction is.
- `removal.rs`, `cleanup.rs`, `presence.rs`, `session.rs`: removal commands,
  privilege and pinning, data cleanup (which entries of the data
  directories belong to a selection), and the answers and reports of a
  session.
- `flow.rs`: the interactive session (a blocked plan stops, a changed plan
  is shown again, only the typed phrase or a yes goes on) and the
  execution of a confirmed plan (fingerprint repeated before anything
  runs, data removed only after every removal succeeded, installed state
  checked again for the exit code), each as a step function whose
  actions `app/` performs.
- `util.rs`, `text.rs`, `lines.rs`, `paths.rs`, `sorting.rs`, `number.rs`,
  `matching.rs`, `platform.rs`, `model.rs`, `command.rs`: the shared text,
  path and data model, and the calls into `regex`, `serde_json`, `sha2`,
  `hex`, `unicode-normalization`, `flate2`, `tar` and `quick-xml`.

`app/` is the command-line program around the library: argument parsing,
running helper programs, reading files, prompts and output.
