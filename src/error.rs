use vstd::prelude::*;

verus! {

/// Why an operation was refused. A refused operation changes nothing.
#[derive(Clone, Copy, Debug, PartialEq, Eq, Structural)]
pub enum ContractError {
    /// The caller may not do this now: not a player of the match, no
    /// matching commitment, or a claim that is early or cannot be
    /// attributed to one side.
    Unauthorized {},
    /// The funds sent do not fit the wager.
    IncorrectFunds {},
    /// No such match or queue entry, or the match is already decided.
    InvalidGame {},
    /// The match would put a player in two matches at once.
    UniqueConstraint {},
}

} // verus!
