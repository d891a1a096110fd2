//! The token record and the error taxonomy shared by every operation.

use vstd::prelude::*;

verus! {

/// A uniquely identified digital asset. `id` and `dna` are write-once,
/// `price` and the owning account mutate in place. A `price` of zero is a
/// reserved sentinel meaning "not for sale".
#[derive(Clone, Copy, PartialEq, Eq, Structural, Debug)]
pub struct Kitty {
    /// Unique identifier, assigned at creation, immutable.
    pub id: u64,
    /// Genetic payload, same width as `id`; combined byte-wise during
    /// recombination, never overwritten afterwards.
    pub dna: u64,
    /// Asking price in the external currency's unit; zero means
    /// "not for sale".
    pub price: u64,
    /// Zero for tokens created ex nihilo, otherwise one more than the
    /// larger parent generation.
    pub gen: u64,
}

/// Every failure an operation can report. Each is a normal, recoverable
/// return value, detected before any state mutation.
#[derive(Clone, Copy, PartialEq, Eq, Structural, Debug)]
pub enum Error {
    /// A token (or one of its parents) does not exist, or has no owner.
    NotFound,
    /// The caller does not own the token it tried to act on.
    NotOwner,
    /// A freshly generated identifier collides with an existing token.
    DuplicateId,
    /// A counter would leave the representable range if incremented.
    Overflow,
    /// A counter would leave the representable range if decremented.
    Underflow,
    /// The token's price is the zero sentinel, so it cannot be bought.
    NotForSale,
    /// The token's price exceeds the buyer's stated maximum.
    PriceExceeded,
    /// The caller tried to buy a token it already owns.
    SelfPurchase,
    /// The currency collaborator refused to move the funds.
    LedgerError,
}

} // verus!
