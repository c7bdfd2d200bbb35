//! The error taxonomy of the tool. Every error is fatal for the
//! invocation and carries the offending path, name, or argument. The
//! I/O-flavored variants are produced by the surrounding binary; the
//! library itself reports only an unknown kind or a malformed mode
//! argument.

use vstd::prelude::*;

verus! {

/// Why an invocation failed.
#[derive(Debug, Clone)]
pub enum TmpError {
    /// The configuration path does not exist.
    ConfigNotFound { path: String },
    /// The configuration path exists but cannot be read.
    ConfigReadFailed { path: String },
    /// The configuration is not a well-formed document of the expected shape.
    ConfigParseFailed { path: String },
    /// The selected kind is not declared in the configuration.
    UnknownKind { name: String },
    /// The mode override is not a valid octal mode string.
    InvalidChmodArg { arg: String },
    /// The target file could not be created.
    CreateFailed { path: String },
    /// The content could not be written to the target file.
    WriteFailed { path: String },
    /// The permissions could not be applied to the target file.
    ChmodFailed { path: String },
    /// The target file could not be removed.
    DeleteFailed { path: String },
    /// The HOME environment variable is not set.
    HomeNotSet,
}

} // verus!
