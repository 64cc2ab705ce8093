//! The failure kinds of the voting ledger. Every operation either
//! succeeds or returns exactly one of these; no partial state change
//! accompanies a failure.

use vstd::prelude::*;

verus! {

#[derive(Debug, Clone, Copy, PartialEq, Eq, Structural)]
pub enum ContractError {
    /// More than the permitted number of options supplied at creation.
    TooManyOptions,
    /// A vote referenced a poll id that is not in the registry.
    PollNotFound,
    /// A vote referenced an option label absent from the poll.
    Unauthorized,
}

} // verus!
