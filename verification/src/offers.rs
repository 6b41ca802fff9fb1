use vstd::prelude::*;

verus! {

/// Lifecycle state of an escrow offer: born `Active`, settled exactly once
/// into `Completed` (the recipient accepted) or `Cancelled` (the creator
/// reclaimed).  Both settled states are terminal.
#[derive(Clone, Copy, PartialEq, Eq, Structural, Debug)]
pub enum OfferStatus {
    Active,
    Completed,
    Cancelled,
}

/// One escrow record.  `offer_id` values are assigned densely starting at 1
/// and never reused; `amount` is the custodied value and is always positive
/// for a stored offer; `created_timestamp` is informational only.
#[derive(Clone, Copy, PartialEq, Eq, Structural, Debug)]
pub struct Offer {
    pub offer_id: u64,
    pub creator: u64,
    pub recipient: u64,
    pub amount: u128,
    pub status: OfferStatus,
    pub created_timestamp: u64,
}

/// Why a mutating operation was refused.  Every refusal leaves the ledger
/// untouched.  `CustodyTransferFailed` is reserved for the embedding host:
/// it reports an outgoing release that could not be completed, in which case
/// the host must discard the whole invocation.
#[derive(Clone, Copy, PartialEq, Eq, Structural, Debug)]
pub enum EscrowError {
    ZeroPayment,
    OfferNotFound,
    OfferNotActive,
    NotOfferCreator,
    NotOfferRecipient,
    CustodyTransferFailed,
}

/// An outgoing custody release that the host must perform atomically with
/// the settlement that returned it: pay `amount` to `to`.
#[derive(Clone, Copy, PartialEq, Eq, Structural, Debug)]
pub struct Transfer {
    pub to: u64,
    pub amount: u128,
}

} // verus!
