//! A small library behind a command-line helper that materializes scratch
//! files from user-declared kinds: a kind bundles a filename suffix, a
//! default permission mode, and a content template. The library validates
//! and normalizes a configuration, expands named template fragments into
//! kind bodies, and decides exactly what the file materializer must do for
//! a write, delete, or preview request. All filesystem and parsing I/O
//! lives outside, in the surrounding binary.

pub mod chmod;
pub mod cli;
pub mod config;
pub mod errors;
pub mod materialize;
pub mod registry;
pub mod text;

pub use chmod::interpret_chmod_value;
pub use cli::Cli;
pub use config::Config;
pub use config::Kind;
pub use errors::TmpError;
pub use registry::Tmp;
