//! A verified escrow-offer ledger.
//!
//! One party deposits an amount on behalf of a designated counterparty; the
//! deposit is held until either the counterparty accepts it or the depositor
//! cancels and reclaims it.  The library owns the whole offer lifecycle: the
//! append-only ledger of offers, the per-address indices, the three mutating
//! transitions (`create`, `cancel_offer`, `accept_offer`) and the read-only
//! queries, together with the invariants that guarantee an offer's funds are
//! released at most once and only to an authorized party.
//!
//! Identities are carried as plain `u64` keys and amounts as `u128` values;
//! the host that embeds the ledger performs the actual custody transfers that
//! the transitions prescribe.

pub mod escrow;
pub mod index;
pub mod laws;
pub mod model;
pub mod offers;
