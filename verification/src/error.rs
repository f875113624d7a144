//! The error taxonomy of the binding layer: one variant per upstream failure
//! source, each carrying the upstream's diagnostic payload.

use vstd::prelude::*;

verus! {

/// One phase of the graphics pipeline, compiled independently before linking.
#[derive(Clone, Copy, Debug, PartialEq, Eq, Structural)]
pub enum ShaderStage {
    Vertex,
    Fragment,
}

/// Every fallible operation of the binding layer reports one of these kinds.
#[derive(Debug)]
pub enum Error {
    /// The driver rejected a shader stage's source; carries the failing
    /// stage and the driver's info log.
    ShaderCompileFailed { stage: ShaderStage, log: String },
    /// The driver rejected the link of a program; carries the info log.
    ProgramLinkFailed { log: String },
    /// A uniform or attribute name holds an embedded NUL character and so
    /// cannot be handed to the driver.
    InvalidIdentifier { name: String },
    /// A shader source file was missing or unreadable; carries the name of
    /// the file that was looked for.
    ResourceLoadFailed { filename: String },
}

/// Holds when `r` reports a compile failure of exactly the stage `stage`.
pub open spec fn names_compile_failure<T>(r: Result<T, Error>, stage: ShaderStage) -> bool {
    match r {
        Err(Error::ShaderCompileFailed { stage: s, log: _ }) => s == stage,
        _ => false,
    }
}

/// Holds when `r` reports a link failure.
pub open spec fn names_link_failure<T>(r: Result<T, Error>) -> bool {
    match r {
        Err(Error::ProgramLinkFailed { log: _ }) => true,
        _ => false,
    }
}

/// Holds when `r` rejects the identifier whose characters are `name`.
pub open spec fn names_invalid_identifier<T>(r: Result<T, Error>, name: Seq<char>) -> bool {
    match r {
        Err(Error::InvalidIdentifier { name: n }) => n@ == name,
        _ => false,
    }
}

/// Holds when `r` reports that the file named `filename` could not be loaded.
pub open spec fn names_missing_file<T>(r: Result<T, Error>, filename: Seq<char>) -> bool {
    match r {
        Err(Error::ResourceLoadFailed { filename: f }) => f@ == filename,
        _ => false,
    }
}

} // verus!
