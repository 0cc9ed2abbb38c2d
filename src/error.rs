use vstd::prelude::*;

verus! {

/// The ways an operation of the engine can fail. Every failure leaves the
/// engine as it was before the call.
#[derive(Debug, Clone, Copy, PartialEq, Eq, Structural)]
pub enum Error {
    /// No algorithm is registered under the requested identifier.
    UnknownAlgorithm,
    /// The key's length is not one that the algorithm's key spec accepts.
    InvalidKeyLength,
    /// Encryption or decryption was asked for before a key was installed.
    NoKeySet,
    /// The buffer's length is not a multiple of the block size.
    InvalidInputLength,
    /// A key spec was described with a maximum below its minimum or a zero step.
    InvalidKeySpec,
}

} // verus!
