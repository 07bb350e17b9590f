# eshu

A library for building command line tools: flags (short, long, grouped,
with values or key-value pairs), subcommands, a parser for POSIX/GNU style
arguments with partial long flags and the `--` end-of-flags marker, and
generated help text and `roff` man pages.

The library in `src/` is written in Verus and verified: every public function
states its result in its contract, over mathematical views of the types, and
the properties the parser promises are proved as laws.

- `src/arg_parser/` the parser: `parse_args`, single short and long flags,
  grouped short flags, subcommands, and the laws of the parse (`laws.rs`,
  `group_laws.rs`, `marker_laws.rs`, `value_laws.rs`).
- `src/cli/` the parsed interface `Cli`, its builder `CliBuilder`, the help
  text (`help.rs`), the man page (`roff.rs`) and what a program does right
  after parsing (`startup.rs`).
- `src/control/` flag and subcommand definitions and their builders.
- `src/store.rs` what an entered flag stores, with an ordered key-value map.
- `src/text.rs`, `src/utils.rs` string helpers with their specifications.
- `app/` the process-level part: reading the program's arguments, printing
  help, versions and errors, exiting, and running subcommands that carry code.
