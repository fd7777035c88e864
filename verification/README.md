# MegaDown

A download manager for public MEGA links: single files, folders and password-protected links,
with parallel chunks, pausing, resuming across runs and an integrity check at the end.

- `src/` is the library. It holds the rules and the computations of the program, with contracts
  that Verus proves: how links are read and opened, how keys and names are decrypted, how a folder
  is planned, how a file is cut into chunks and resumed, how downloads, rounds and tasks proceed,
  and what the window shows of them.
- `app/` is the program: requests, files, the clock, threads and the window. It asks the library
  what to do next, does it, and hands back what came of it. The loops that do so, the joining of
  path parts to paths, and what is computed with floating-point numbers are its own.
- `tests/` runs the library on concrete values.

Hashing, AES, base64, URL parsing, JSON and file-name cleaning come from other crates. Each call
stands behind one small function in `src/` whose contract is taken on trust; its comment says what
is claimed of the crate. Average speeds and percentages are floating-point numbers and are
computed in `app/`, from numbers of bytes and milliseconds that the library picks.
