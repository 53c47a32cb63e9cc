# olma

The verified core of `olma`, a package manager for macOS bottles.

- `src/` is the library, written in Verus: dependency ordering, metadata cache
  and fetch decisions, relocation of prefixes inside files, symlinks, Mach-O
  load commands and launchd property lists, the install pipeline's decisions,
  the transaction log, and what each command decides and prints. Every
  function there carries a contract that Verus proves.
- `app/` is the ordinary Rust around it: environment, files, locks, HTTP,
  SQLite, external tools, the terminal and the command entry points.
- `tests/` runs the library on concrete values.
