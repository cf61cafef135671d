# akra_hookers

The core of Akra Hookers, a local tool that records the prompts given to
Codex and the results it returns. The library is written in Verus: each
public function carries a contract, and Verus proves the code against it.

- `src/` — the verified library: Codex hook manifests (`UserPromptSubmit`
  and `Stop` handlers) and their trust entries, including the edits to
  `config.toml` (which keys of `[hooks.state]` are deleted, carried to a
  handler's new place, or written), the multi-file install transaction, run
  as a step-by-step machine with its rollback and the law that a failed run
  leaves every file as it was, the
  capture switch, detected Codex installations, the crash-safe spool and its
  usage record, the collector endpoint and relay decisions, prompt
  projection, summary prompts and the validation of model output, and the
  small path, quoting and text helpers these rest on.
- `tests/` — tests run against the compiled library.
- `app/` — the `akra-hookers` command: argument handling and the file
  system work (reading and writing manifests, configuration and spool
  files) around the library's decisions.

The calls into outside crates (`url`, `uuid`, `sha2`, `base64`,
`serde_json`, `toml_edit`) and into a few std functions stand behind small
trusted wrappers that make the call and convert its arguments and result;
their doc comments say what is assumed of them.
