# wasi_replay

Record and replay of a WASI component's nondeterministic inputs. While
recording, every random word and clock reading the guest asks for is appended
to one tape, in call order, and saved as text (`kind value` per line); while
replaying, the tape is loaded and each request gets the recorded value back,
and a run whose requests diverge from the recorded order or count is stopped.

- `src/` — the library, with its contracts and proofs: the tape and its replay rules
  (`tape`, `clock`, `random`), the tape file format (`tape_file`), value and
  entry texts (`value`), the import listing of a component (`wit`), the guest's greeting
  (`greeting`), and character-level helpers (`text`).
- `app/` — the host program: wasmtime and WASI wiring and file I/O. Run
  under the name `dump_wit`, it lists the guest component's imports.
- `tests/` — tests of the library.
