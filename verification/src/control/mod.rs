//! Flag and command definitions.

use vstd::prelude::*;

pub mod builder;
pub mod cmd;
pub mod flag;

pub use builder::CliFlagBuilder;
pub use cmd::{CliCmd, CliCmdBuilder, CmdView};
pub use flag::{CliFlag, FlagView};

verus! {

/// The type of data stored by a parsed flag.
#[derive(Debug, Clone, Copy, PartialEq, Eq, Structural)]
pub enum StoreType {
    /// Stores one or more standalone values (e.g. `--file input.txt`).
    Value,
    /// Stores one or more key-value pairs (e.g. `--define key=value`).
    KeyValue,
}

/// The syntax used to pass value arguments to a flag.
///
/// If a flag is attached, the calling syntax is `--flag-name=value`.
/// If a flag is detached, the calling syntax is `--flag-name value`.
#[derive(Debug, Clone, Copy, PartialEq, Eq, Structural)]
pub enum StoreSyntax {
    /// Attached to the flag; `--flag-name=value` or `--flag-name=key=value`
    Attached,
    /// Detached from the flag; `--flag-name value` or `--flag-name key=value`
    Detached,
}

} // verus!
