use vstd::prelude::*;

verus! {

/// The errors of the quadratic funding round.
#[derive(Debug, Clone, PartialEq, Eq)]
pub enum ContractError {
    /// A stored item that the call needs is absent.
    NotFound,
    /// An address did not pass the chain's address validation.
    InvalidAddress,
    Unauthorized,
    ProposalNotFound,
    ProposalPeriodExpired,
    VotingPeriodExpired,
    VotingPeriodNotExpired,
    WrongCoinSent,
    WrongFundCoin { expected: String, got: String },
    AddressAlreadyVotedProject,
    CLRConstrainRequired,
}

} // verus!
