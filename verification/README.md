# agent_evaluation

The verified core of an evaluation harness that drives an agent CLI as a
black-box subprocess over a suite of test scenarios.

- `src/` is checked by Verus:
  - `suite_run` — a run of a scenario suite as a state machine: trials per
    variation, rate-limit retries with exponential backoff, pauses, the
    majority vote of a variation and the count of a scenario's passing
    variations, with proofs
    that the run keeps its invariant and always finishes (`laws`);
  - `runner` — runner options, agent profile selection, the command for one
    invocation and the start of a run;
  - `command` — arguments and environment of an invocation (CI variables
    stripped, credentials forwarded), its working-directory name, and the
    reading of its outcome (a failure reported on standard error, an exit
    status, or a silent exit that printed nothing on either stream);
  - `process_tree` — parent ids from `/proc/<pid>/status` text and the
    breadth-first list of a process and its descendants;
  - `config` — agent profiles merged on top of the baseline, and the
    per-variation rubric overrides they declare;
  - `prompt`, `scenario`, `text` — prompt assembly, scenario selection and
    character-level helpers (including rate-limit detection).
- `app/` launches processes, sleeps, reports progress and assembles the
  floating-point report around the verified core, where the profile's
  score thresholds are applied.
- `tests/` exercise the library on concrete inputs.
