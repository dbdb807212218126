# canon

`canon` checks a project against expectations written in `.canon/check.yml`: each
expectation is a question and the answer it should get. An evaluator model answers
each question from the staged files, answers are cached per expectation, and
`canon gate` refuses a commit when an expectation has no cached answer or newly
fails.

## Layout

- `src/` is the library, written in Verus: configuration expansion and
  validation, expectation selection and ordering, the check run as a state
  machine, the evaluator protocol's decisions (turns, thread reuse, model
  fallback), answer history reuse and compaction, the findings of `canon gate`, and the output
  formats. Every function there carries a contract that Verus proves.
- `app/` is the command-line program around it: argument parsing, git and file
  I/O, the evaluator's app-server process, YAML and JSON decoding, and signals.
  It hands the library plain values and performs the actions the library asks for.
- `tests/` runs the library on concrete inputs.

The library names a few outside results it cannot state in full (JSON string
escaping, Unicode case and category tables, UTF-8 decoding); their contracts say
what is relied on.
