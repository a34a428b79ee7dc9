use vstd::prelude::*;

verus! {

/// The ways in which an operation of this library can fail.
#[derive(Clone, Copy, Debug, PartialEq, Eq, Structural)]
pub enum GitError {
    /// An object is absent from the store.
    NotFound,
    /// Bytes that are not the canonical form of any object.
    MalformedObject,
    /// A tree payload that is not a sequence of well-formed entries.
    MalformedTree,
    /// A delta stream with a reserved instruction, a copy outside the
    /// base or a truncated size or instruction.
    MalformedDelta,
    /// A packfile with a bad header, an unknown record type or a record
    /// that ends early.
    MalformedPack,
    /// The compressor reported a failure.
    Io,
    /// A ref advertisement or pack response that cannot be used.
    Protocol,
}

} // verus!
