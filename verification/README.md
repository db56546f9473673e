# leviticus

A workspace daemon with a FUSE file system, verified with Verus.

- `src/` is the verified library:
  - `vfs` — the read-only projection file system (`vfs::LoiFs`) and the
    writable in-memory file system (`vfs::vfs::LoiFs`): attributes, directory
    listings, reads, writes, create, unlink and rename, with the laws that
    tie them together (a read gives back what a write wrote, a listing lists
    every name once and resumes from any entry's offset, ...).
  - `args`, `reg_command`, `cli::command` — the command-line grammars.
  - `daemon` — the daemon's state, the status query its socket answers, and
    the layout of its home directory.
  - `projection` — the view and explanation commands.
- `app/` is the binary: the FUSE replies, the disk mirror, the sockets, the
  state file and clap's help and error output.
- `tests/` exercises the library on concrete values.
