//! A command line interface library: flag definitions, subcommands, a parser
//! for POSIX/GNU style arguments, and help and man page text generation.

pub mod arg_parser;
pub mod cli;
pub mod control;
pub mod error;
pub mod store;
pub mod text;
pub mod utils;

pub use cli::builder::CliBuilder;
pub use cli::startup::StartupAction;
pub use cli::Cli;
pub use control::{CliCmd, CliCmdBuilder, CliFlag, CliFlagBuilder, StoreSyntax, StoreType};
pub use error::{EshuError, EshuErrorKind, EshuResult};
pub use store::{KvMap, Store};
