# exportbranch

`exportbranch` filters, copies and converts the files of a Harbour source
tree (CP850 → ASCII) before `Compex` compiles them.

The crate is split in two:

- `src/` is the library, written in Verus: its functions carry
  `requires`/`ensures` contracts that Verus proves. The few calls into `std`
  and `regex` go through small wrappers marked `external_body`, whose
  contracts are trusted, not proved; each says in its doc comment what it
  assumes of the outside code. It holds the conversion
  engine (whole buffers and chunked input), the glob → regex compilation and
  the per-source override files, the modification-time tracker and its file
  format, the configuration derived from the command line, the destination
  layout and the printed lines. The laws of the library (the tracker's
  save/reload round trip, chunking not changing a conversion, how counts add
  up) are public proof functions next to the code they are about.
- `app/` is the command-line program: argument parsing with `clap`, the
  file-system walk (in parallel with `rayon`), reading and writing files, and
  printing. It hands the library plain values and acts on what comes back.

Verify the library with Verus; the tests under `tests/` run it with the real
`regex` crate linked.

During the walk the directories `bin`, `lib`, `new/fivewin`,
`programas_externos/conversoes` and `programas_externos/hbfunctions`,
resolved under each source root, are skipped
(`configuration::disregarded_relative_paths`).
