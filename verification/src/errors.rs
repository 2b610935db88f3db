use vstd::prelude::*;

verus! {

/// Errors surfaced by the ledger and its arithmetic layer.
///
/// Arithmetic failures are fatal for the enclosing operation: every function
/// of this crate that returns one of these errors leaves all of its `&mut`
/// arguments exactly as they were before the call.
#[derive(Clone, Copy, Debug, PartialEq, Eq, Structural)]
pub enum PerpetualsError {
    /// A checked addition, multiplication, rescale or accounting bound was
    /// exceeded.
    ArithmeticOverflow,
    /// A checked subtraction went below zero.
    ArithmeticUnderflow,
    /// A division by zero was attempted.
    DivisionByZero,
    /// `resolve_staking_round` was called before the minimum round duration
    /// elapsed; the caller should retry later.
    RoundNotYetResolvable,
    /// A bounded collection (resolved rounds, locked stakes) cannot grow any
    /// further, so the storage backing it cannot be resized.
    StorageResizeFailure,
    /// The reward vault does not hold enough tokens to pay a claim.
    InsufficientVaultBalance,
    /// A stake referenced by position does not exist.
    StakeNotFound,
    /// The clock sysvar could not be read.
    ClockUnavailable,
    /// The verification instruction was not addressed to the ed25519 program.
    PermissionlessOracleMissingSignature,
    /// The verification instruction's payload is not a single well-formed
    /// ed25519 signature entry.
    PermissionlessOracleMalformedEd25519Data,
    /// The signer of the verified message is not the expected oracle
    /// authority.
    PermissionlessOracleSignerMismatch,
    /// The signed message does not match the price update being applied.
    PermissionlessOracleMessageMismatch,
}

} // verus!
