# profile_router

A Windows "browser shim" that opens clicked links in the Chrome profile whose
rule matches the link's domain (and, optionally, its path), with a fallback
profile so that a link always opens somewhere.

- `src/` is the verified library (Verus): rule matching (`matcher`), the
  rules file's model (`config`), reading Chrome's profiles out of `Local State` (through serde_json) and resolving
  profile names (`chrome`), the registry entries of a browser registration
  (`register`), log lines and the log cap (`logging`), command-line dispatch
  and the lines each command prints (`cli`), the profile list kept in the
  rules file (`notes`), and string helpers with their specifications
  (`text`).
- `app/` is the program around it: reading the environment, files and the
  registry, parsing TOML, launching Chrome, printing.
- `tests/` runs the library on concrete inputs.
