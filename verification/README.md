# amppo

Switches a laptop between performance modes. Each mode in the configuration
names processor, graphics card and firmware settings; applying a mode writes
them to their sysfs files.

- `src/` is the verified library (Verus). `hardware/cpu.rs`, `hardware/gpu.rs`
  and `hardware/platform.rs` plan each update as a sequence of reads and
  writes and walk it one outcome at a time (`sysfs.rs`), stopping at the first
  failure; a setting that the hardware must offer is checked against the
  offered list before it is written. `text.rs` holds the text handling:
  words of a file, decimal numbers, the range of present processors.
- `app/` is the program: it reads the configuration, runs the mode's hook and
  performs the file operations that the library asks for.
- `tests/` runs the library against an in-memory file system.

The original project also has a `daemon` binary. It calls `Config::next` with
the saved state and a `Config::current` that the project never defines, so it
cannot be built as it stands and is not part of this crate. `app/files.rs`
keeps the state file's `load_state` and `save_state`, which only the daemon
used. The `client` binary is folded into the program: started under the name
`client`, the program runs it. Its `--version` text is written out because the
build that type-checks `app/` sets no Cargo package variables, and clap's
`author` is left out for the same reason.
