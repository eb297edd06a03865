# klogz

Structured log capture, browsing, and kubectl log streaming.

- `src/` is the verified library: label sanitizing, capture paths
  (`<root>/YYYY-MM-DD/HH-MM-SS_<label>.log`), the newest-first capture
  listing, the `clean` and `klf` state machines, and the string and path
  primitives they rest on, each with its contract.
- `app/` is the command line around it: argument parsing, the environment,
  files, processes and terminals.
- `tests/` exercises the library on concrete values.
