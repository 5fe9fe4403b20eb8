//! The engine's error taxonomy.
//!
//! Construction-time errors abort `initialize` and are surfaced to the
//! caller; the two run-time conditions (a guest trap and a malformed
//! wire payload) are never surfaced from `process` — they are converted
//! into per-record failure entries carrying the codes below.

use vstd::prelude::*;

verus! {

/// Why a chain could not be built, or what a failure entry stands for.
#[derive(Clone, Copy, Debug, PartialEq, Eq, Structural)]
pub enum EngineError {
    /// Malformed stage parameters.
    Config,
    /// Invalid bytecode or unsupported format.
    Compile,
    /// The module could not be instantiated against the capability.
    Instantiation,
    /// Zero or more than one recognized transform entry point.
    InvalidModule,
    /// A guest call panicked, trapped, or exhausted its step budget.
    RuntimeTrap,
    /// A malformed wire payload, in either direction.
    Serialization,
}

/// Failure code used when a guest call traps and the runtime reports no
/// code of its own.
pub const TRAP_ERROR_CODE: u32 = 1;

/// Failure code used when a guest returns a buffer the wire codec cannot
/// decode, or one that breaks the stage's cardinality contract.
pub const SERIALIZATION_ERROR_CODE: u32 = 2;

} // verus!
