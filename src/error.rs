use vstd::prelude::*;

verus! {

/// Failures reported by the tick ledger. Each one aborts the operation that raised it.
#[derive(Clone, Copy, Debug, PartialEq, Eq, Structural)]
pub enum ErrorCode {
    /// The tick index is outside the array, or not usable for the spacing.
    TickNotFound,
    /// The start index is not a valid array anchor for the spacing.
    InvalidStartTick,
    /// The tick spacing is zero.
    InvalidTickSpacing,
    /// A search started outside the window that the array covers in that direction.
    InvalidTickArraySequence,
    /// The array belongs to another pool.
    DifferentPoolTickArrayAccount,
    /// The account is not owned by this program.
    AccountOwnedByWrongProgram,
    /// A write was requested on an account that is not writable.
    AccountNotMutable,
    /// The account is shorter than its type tag.
    AccountDiscriminatorNotFound,
    /// The type tag names neither kind of tick array.
    AccountDiscriminatorMismatch,
    /// The account body does not hold a well-formed tick array.
    AccountDidNotDeserialize,
    /// Adding liquidity overflowed.
    LiquidityAddValueErr,
    /// Removing liquidity underflowed.
    LiquiditySubValueErr,
}

} // verus!
