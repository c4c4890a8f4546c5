//! The ways in which a wallet operation ends without a result.

use vstd::prelude::*;

verus! {

/// Why an operation failed. Every error ends the call that raised it; the
/// wallet never retries.
#[derive(Clone, Copy, Debug, PartialEq, Eq, Structural)]
pub enum Error {
    /// The proofs at hand do not add up to the amount asked for.
    InsufficientFunds,
    /// The outputs of a split are not worth what its inputs are worth.
    AmountMismatch,
    /// A sum of amounts does not fit into an amount.
    AmountError,
    /// The blinding of a secret failed.
    BlindingError,
    /// A secret or a blinding factor that was generated for an output is
    /// already in use.
    ReusedSecret,
    /// What the mint answered does not fit the outputs it was asked to sign.
    ProofReconstructionError,
    /// A token names a mint whose keys the wallet does not hold.
    UnknownMint,
}

} // verus!
