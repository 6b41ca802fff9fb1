//! The executable escrow ledger: the durable state (id counter, offer
//! ledger, two address indices) and the three mutating transitions together
//! with the read-only queries.  Every contract is stated against the
//! spec-level transition functions of `model`, so the exact outcome and the
//! exact successor state of each operation is pinned down.
//!
//! The ledger itself moves no funds.  A successful settlement returns the
//! `Transfer` the host must perform atomically with it; a successful
//! creation requires the host to have taken the attached amount into
//! custody before the call.

use vstd::prelude::*;

use crate::index::AddressIndex;
use crate::model::{
    accept_check, accept_next, accept_outcome, active_from_ids, active_prefix, cancel_check,
    cancel_next, cancel_outcome, create_allowed, create_next, create_outcome, created_offer,
    empty_index, initial_state, lemma_accept_next_wf, lemma_cancel_next_wf, lemma_create_next_wf,
    offer_at, offer_exists, state_wf, StateView,
};
use crate::offers::{EscrowError, Offer, OfferStatus, Transfer};

verus! {

/// The escrow ledger.  Offers are stored densely: the offer with id `i`
/// sits at position `i - 1`, so the ledger length always equals
/// `last_offer_id` and existence is a range check.
pub struct EscrowContract {
    last_offer_id: u64,
    offers: Vec<Offer>,
    offers_by_creator: AddressIndex,
    offers_incoming: AddressIndex,
}

impl View for EscrowContract {
    type V = StateView;

    closed spec fn view(&self) -> StateView {
        StateView {
            last_offer_id: self.last_offer_id,
            offers: self.offers@,
            offers_by_creator: self.offers_by_creator@,
            offers_incoming: self.offers_incoming@,
        }
    }
}

impl EscrowContract {
    /// Well-formedness: the representation invariants of the two indices
    /// and the ledger invariant of the abstract state.  `new` establishes
    /// it and every method preserves it.
    pub open spec fn inv(&self) -> bool {
        &&& self.repr_wf()
        &&& state_wf(self@)
    }

    /// Representation invariant of the index structures.
    pub closed spec fn repr_wf(&self) -> bool {
        &&& self.offers_by_creator.wf()
        &&& self.offers_incoming.wf()
    }

    /// A freshly initialized ledger: no offers, counter at 0.  Initializing
    /// is not repeatable by construction — a ledger value, once created,
    /// only ever moves through the transitions below.
    pub fn new() -> (r: Self)
        ensures
            r.inv(),
            r@ == initial_state(),
    {
        let r = EscrowContract {
            last_offer_id: 0,
            offers: Vec::new(),
            offers_by_creator: AddressIndex::new(),
            offers_incoming: AddressIndex::new(),
        };
        proof {
            assert(r@.offers_by_creator =~= empty_index());
            assert(r@.offers_incoming =~= empty_index());
            assert(r@ =~= initial_state());
        }
        r
    }

    /// Create a new offer: `creator` deposits `amount` on behalf of
    /// `recipient`.  The host must already hold `amount` in custody when it
    /// makes this call; on `ZeroPayment` nothing is stored and the host
    /// must hand the attached value back.
    ///
    /// Succeeds exactly when `amount > 0`; the fresh id is
    /// `last_offer_id + 1`, so successful creations yield ids `1, 2, 3, …`
    /// in call order.  On failure the state is unchanged.
    pub fn create(&mut self, creator: u64, recipient: u64, amount: u128, now: u64) -> (r: Result<
        u64,
        EscrowError,
    >)
        requires
            old(self).inv(),
            old(self)@.last_offer_id < usize::MAX as u64,
        ensures
            final(self).inv(),
            r == create_outcome(old(self)@, amount),
            final(self)@ == if create_allowed(amount) {
                create_next(old(self)@, creator, recipient, amount, now)
            } else {
                old(self)@
            },
    {
        if amount == 0 {
            return Err(EscrowError::ZeroPayment);
        }
        let new_offer_id = self.last_offer_id + 1;
        self.last_offer_id = new_offer_id;
        let offer = Offer {
            offer_id: new_offer_id,
            creator: creator,
            recipient: recipient,
            amount: amount,
            status: OfferStatus::Active,
            created_timestamp: now,
        };
        self.offers.push(offer);
        self.offers_by_creator.insert(creator, new_offer_id);
        self.offers_incoming.insert(recipient, new_offer_id);
        proof {
            lemma_create_next_wf(old(self)@, creator, recipient, amount, now);
            assert(offer == created_offer(old(self)@, creator, recipient, amount, now));
            assert(self@ =~= create_next(old(self)@, creator, recipient, amount, now));
        }
        Ok(new_offer_id)
    }

    /// Cancel an `Active` offer.  Only the creator may cancel; on success
    /// the offer becomes `Cancelled` — terminally — and the returned
    /// `Transfer` refunds the full custodied amount to the caller.  The
    /// checks run in order: existence, then status, then authorization;
    /// on any failure the state is unchanged.
    pub fn cancel_offer(&mut self, offer_id: u64, caller: u64) -> (r: Result<
        Transfer,
        EscrowError,
    >)
        requires
            old(self).inv(),
        ensures
            final(self).inv(),
            r == cancel_outcome(old(self)@, offer_id, caller),
            final(self)@ == if cancel_check(old(self)@, offer_id, caller) is Ok {
                cancel_next(old(self)@, offer_id)
            } else {
                old(self)@
            },
    {
        let n = self.offers.len();
        if offer_id == 0 || offer_id > n as u64 {
            return Err(EscrowError::OfferNotFound);
        }
        let idx = (offer_id - 1) as usize;
        let offer = self.offers[idx];
        if offer.status != OfferStatus::Active {
            return Err(EscrowError::OfferNotActive);
        }
        if offer.creator != caller {
            return Err(EscrowError::NotOfferCreator);
        }
        let settled = Offer { status: OfferStatus::Cancelled, ..offer };
        let slot = &mut self.offers[idx];
        *slot = settled;
        proof {
            lemma_cancel_next_wf(old(self)@, offer_id);
            assert(self@ =~= cancel_next(old(self)@, offer_id));
        }
        Ok(Transfer { to: caller, amount: offer.amount })
    }

    /// Accept an `Active` offer.  Only the recipient may accept; on success
    /// the offer becomes `Completed` — terminally — and the returned
    /// `Transfer` pays the full custodied amount to the caller.  The checks
    /// run in order: existence, then status, then authorization; on any
    /// failure the state is unchanged.
    pub fn accept_offer(&mut self, offer_id: u64, caller: u64) -> (r: Result<
        Transfer,
        EscrowError,
    >)
        requires
            old(self).inv(),
        ensures
            final(self).inv(),
            r == accept_outcome(old(self)@, offer_id, caller),
            final(self)@ == if accept_check(old(self)@, offer_id, caller) is Ok {
                accept_next(old(self)@, offer_id)
            } else {
                old(self)@
            },
    {
        let n = self.offers.len();
        if offer_id == 0 || offer_id > n as u64 {
            return Err(EscrowError::OfferNotFound);
        }
        let idx = (offer_id - 1) as usize;
        let offer = self.offers[idx];
        if offer.status != OfferStatus::Active {
            return Err(EscrowError::OfferNotActive);
        }
        if offer.recipient != caller {
            return Err(EscrowError::NotOfferRecipient);
        }
        let settled = Offer { status: OfferStatus::Completed, ..offer };
        let slot = &mut self.offers[idx];
        *slot = settled;
        proof {
            lemma_accept_next_wf(old(self)@, offer_id);
            assert(self@ =~= accept_next(old(self)@, offer_id));
        }
        Ok(Transfer { to: caller, amount: offer.amount })
    }

    /// The highest id assigned so far (0 when no offer was ever created).
    pub fn get_last_offer_id(&self) -> (r: u64)
        ensures
            r == self@.last_offer_id,
    {
        self.last_offer_id
    }

    /// The stored offer with the given id, or `OfferNotFound`.
    pub fn get_offer(&self, offer_id: u64) -> (r: Result<Offer, EscrowError>)
        ensures
            offer_exists(self@, offer_id) ==> r == Ok::<Offer, EscrowError>(
                offer_at(self@, offer_id),
            ),
            !offer_exists(self@, offer_id) ==> r == Err::<Offer, EscrowError>(
                EscrowError::OfferNotFound,
            ),
    {
        let n = self.offers.len();
        if offer_id == 0 || offer_id > n as u64 {
            Err(EscrowError::OfferNotFound)
        } else {
            Ok(self.offers[(offer_id - 1) as usize])
        }
    }

    /// The ids of every offer this address ever created, in creation order.
    pub fn get_user_offers(&self, user: u64) -> (r: Vec<u64>)
        ensures
            r@ == self@.offers_by_creator[user],
    {
        self.offers_by_creator.get_ids(user)
    }

    /// The ids of every offer ever directed to this address, in creation
    /// order.
    pub fn get_user_incoming_offers(&self, user: u64) -> (r: Vec<u64>)
        ensures
            r@ == self@.offers_incoming[user],
    {
        self.offers_incoming.get_ids(user)
    }

    /// Every `Active` offer, in ascending id order: a full scan of ids
    /// `1..=last_offer_id` keeping those still `Active`.
    pub fn get_active_offers(&self) -> (r: Vec<Offer>)
        ensures
            r@ == active_prefix(self@.offers, self@.offers.len() as int),
    {
        let n = self.offers.len();
        let mut result: Vec<Offer> = Vec::new();
        let mut i: usize = 0;
        while i < n
            invariant
                i <= n,
                n == self.offers@.len(),
                result@ == active_prefix(self.offers@, i as int),
            decreases n - i,
        {
            let offer = self.offers[i];
            if offer.status == OfferStatus::Active {
                result.push(offer);
            }
            i = i + 1;
        }
        result
    }

    /// The still-`Active` offers this address created, in the order its
    /// index recorded them (which is creation order).
    pub fn get_user_active_offers(&self, user: u64) -> (r: Vec<Offer>)
        requires
            self.inv(),
        ensures
            r@ == active_from_ids(self@.offers, self@.offers_by_creator[user]),
    {
        let ids = self.offers_by_creator.get_ids(user);
        proof {
            assert(crate::model::entry_valid(
                self@.offers_by_creator[user],
                self@.offers,
                user,
                true,
            ));
        }
        self.collect_active(ids)
    }

    /// The still-`Active` offers directed to this address, in the order its
    /// index recorded them (which is creation order).
    pub fn get_user_incoming_active_offers(&self, user: u64) -> (r: Vec<Offer>)
        requires
            self.inv(),
        ensures
            r@ == active_from_ids(self@.offers, self@.offers_incoming[user]),
    {
        let ids = self.offers_incoming.get_ids(user);
        proof {
            assert(crate::model::entry_valid(
                self@.offers_incoming[user],
                self@.offers,
                user,
                false,
            ));
        }
        self.collect_active(ids)
    }

    /// Walk a list of valid offer ids and keep the offers still `Active`.
    fn collect_active(&self, ids: Vec<u64>) -> (r: Vec<Offer>)
        requires
            forall|j: int| 0 <= j < ids@.len() ==> 1 <= #[trigger] ids@[j] && ids@[j]
                <= self@.offers.len(),
        ensures
            r@ == active_from_ids(self@.offers, ids@),
    {
        let n = ids.len();
        let total = self.offers.len();
        let mut result: Vec<Offer> = Vec::new();
        let mut j: usize = 0;
        while j < n
            invariant
                j <= n,
                n == ids@.len(),
                total == self@.offers.len(),
                forall|m: int| 0 <= m < ids@.len() ==> 1 <= #[trigger] ids@[m] && ids@[m]
                    <= self@.offers.len(),
                result@ == active_from_ids(self@.offers, ids@.take(j as int)),
            decreases n - j,
        {
            let id = ids[j];
            proof {
                assert(1 <= ids@[j as int] && ids@[j as int] <= self@.offers.len());
            }
            let offer = self.offers[(id - 1) as usize];
            if offer.status == OfferStatus::Active {
                result.push(offer);
            }
            proof {
                assert(ids@.take(j + 1).drop_last() =~= ids@.take(j as int));
                assert(ids@.take(j + 1).last() == ids@[j as int]);
            }
            j = j + 1;
        }
        proof {
            assert(ids@.take(n as int) =~= ids@);
        }
        result
    }
}

} // verus!
