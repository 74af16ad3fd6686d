# diff_by_time

`dt` records the runs of shell commands (output, exit code, duration) and
compares the outputs of two runs over time.

- `src/` is the library, verified with Verus: canonical command text and
  its hash, short codes, the record store's paths, index and archives,
  fuzzy matching and ranking, the selection state machines of the
  terminal screens, the texts they show (lists, previews, reports, help),
  output differences, and Bash syntax trees.
- `app/` is the `dt` program around it: arguments, files, the terminal and
  the child process.
- `tests/` exercises the library on concrete values.

Calls into outside crates (`sha2`, `hex`, `chrono`, `regex`, `similar`,
`colored`, `fuzzy-matcher`, `unicode-width`, `pathdiff`, `dirs`,
`tree-sitter`) stand behind small trusted functions whose contracts say
what the crates' documentation and sources state.
