# polymodo

A daemonized, fuzzy application launcher: a window in the middle of the screen that finds
applications and launches them.

* `src/` is the library. What the launcher, the daemon and the surfaces decide is written and
  proved here with Verus: each function states what it returns and what it changes, and the laws
  that hold of several functions stand beside them as proof functions whose names start with
  `law_`. What comes from another crate stands behind small functions whose contracts are believed,
  not proved; the comment above each of them says what it claims.
* `tests/` runs the library on concrete values, with the other crates linked.
* `app/` is the program around the library: sockets, files, processes, the GPU and the terminal.
