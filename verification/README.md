# condukt

A deterministic orchestration engine: the decisions behind runs of many tasks that
several sessions work on at once, stated as contracts and proved.

- `src/` is the library. Each module holds one decision with its model and its laws:
  votes over candidates (`consensus`), adversarial findings (`adversarial`), CI checks
  (`ci`), stopping a loop (`circuit`), occupancy of files and tasks (`claim`, `lock`,
  `progress`), open questions (`escalate`), gated execution and its journals
  (`gate_exec`, `gatelog`, `policy`), edits and the shared working tree (`editgate`,
  `maintree`), fail-to-pass proofs (`oracle`), the state of a run (`state`,
  `run_state`, `stats`), what is learnt from it (`lessons`, `learning_signal`,
  `records`, `diffrisk_record`), pull requests (`pr`) and the command line's own rules
  (`commands`). `text`, `json` and `verdict` are shared by all of them.
- `tests/` runs the library on concrete values.
- `app/` is the program around it: arguments, files, locks and the tools that are run.

No function of the library touches a file, a clock or a process. What those say comes
in as plain values, and a result that could not be determined comes in as
`Determination::Undetermined`, which no decision takes for a clean one.
