//! The failure taxonomy shared by the codec, the parser, the executor and
//! the operator kernels.

use vstd::prelude::*;

verus! {

/// Every failure the runtime can report.
///
/// - `Io`: a file could not be opened, read or written (raised only by the
///   unverified I/O shell around the library).
/// - `Decode`: wire bytes are malformed, truncated or type-inconsistent.
/// - `UnknownOp`: a node carries an operator tag with no registered kernel.
/// - `MissingInput`: a referenced tensor name is absent from the execution
///   environment, or the declared output was never produced.
/// - `ShapeMismatch`: a kernel-level rank, dimension or value incompatibility.
#[derive(Clone, Copy, Debug, PartialEq, Eq, Structural)]
pub enum OnnxError {
    Io,
    Decode,
    UnknownOp,
    MissingInput,
    ShapeMismatch,
}

} // verus!
