//! The laws of the escrow lifecycle, proved once and for all over the
//! spec-level model: every id sequence is dense, a settlement is terminal
//! and exclusive, the checks of `cancel` and `accept` are exact
//! characterizations, a full scan yields exactly the `Active` offers in
//! ascending id order, and custody is conserved — each transition moves
//! exactly the deposited or released amount, never more, never twice.

use vstd::prelude::*;

use crate::model::{
    accept_check, accept_next, accept_outcome, active_prefix, active_total, amount_if_active,
    cancel_check, cancel_next, cancel_outcome, create_allowed, create_next, create_outcome,
    created_offer, initial_state, lemma_initial_state_wf, lemma_push_keeps_contains, lemma_step_wf,
    offer_at, offer_exists, run_deposits, run_final, run_ok, run_releases, settled_offer, state_wf,
    step_next, LedgerStep, StateView,
};
use crate::offers::{EscrowError, Offer, OfferStatus, Transfer};

verus! {

/// Law: successful creations assign ids `1, 2, 3, …` in call order, with no
/// gaps and no reuse.  A well-formed ledger holds exactly the offers with
/// ids `1..=last_offer_id` in that order, and a successful `create` returns
/// `last_offer_id + 1` and appends exactly the offer carrying that id.
pub proof fn lemma_ids_sequential(
    v: StateView,
    creator: u64,
    recipient: u64,
    amount: u128,
    now: u64,
)
    requires
        state_wf(v),
        create_allowed(amount),
        v.last_offer_id < u64::MAX,
    ensures
        forall|i: int| 0 <= i < v.offers.len() ==> (#[trigger] v.offers[i]).offer_id == i + 1,
        create_outcome(v, amount) == Ok::<u64, EscrowError>((v.last_offer_id + 1) as u64),
        created_offer(v, creator, recipient, amount, now).offer_id == v.last_offer_id + 1,
        create_next(v, creator, recipient, amount, now).last_offer_id == v.last_offer_id + 1,
        create_next(v, creator, recipient, amount, now).offers == v.offers.push(
            created_offer(v, creator, recipient, amount, now),
        ),
{
}

/// Law: a settled offer rejects both settlements.  Once an offer has left
/// `Active`, every `cancel` and every `accept` of it, by any caller, fails
/// with `OfferNotActive` — so at most one of the two ever succeeds.
pub proof fn lemma_settled_rejects_settlement(v: StateView, offer_id: u64, caller: u64)
    requires
        state_wf(v),
        offer_exists(v, offer_id),
        offer_at(v, offer_id).status != OfferStatus::Active,
    ensures
        cancel_check(v, offer_id, caller) == Err::<(), EscrowError>(EscrowError::OfferNotActive),
        accept_check(v, offer_id, caller) == Err::<(), EscrowError>(EscrowError::OfferNotActive),
{
}

/// Law: a release happens at most once.  Immediately after a successful
/// `cancel` or `accept` of an offer, every further `cancel` or `accept` of
/// the same id, by any caller, fails with `OfferNotActive`.
pub proof fn lemma_release_at_most_once(v: StateView, offer_id: u64, first: u64, second: u64)
    requires
        state_wf(v),
        cancel_check(v, offer_id, first) is Ok || accept_check(v, offer_id, first) is Ok,
    ensures
        ({
            let v2 = if cancel_check(v, offer_id, first) is Ok {
                cancel_next(v, offer_id)
            } else {
                accept_next(v, offer_id)
            };
            &&& cancel_check(v2, offer_id, second) == Err::<(), EscrowError>(
                EscrowError::OfferNotActive,
            )
            &&& accept_check(v2, offer_id, second) == Err::<(), EscrowError>(
                EscrowError::OfferNotActive,
            )
        }),
{
    let v2 = if cancel_check(v, offer_id, first) is Ok {
        cancel_next(v, offer_id)
    } else {
        accept_next(v, offer_id)
    };
    assert(v2.offers.len() == v.offers.len());
    assert(offer_at(v2, offer_id).status != OfferStatus::Active);
}

/// A stored offer is untouched by any `create`: creation only appends.
pub proof fn lemma_create_preserves_offer(
    v: StateView,
    offer_id: u64,
    creator: u64,
    recipient: u64,
    amount: u128,
    now: u64,
)
    requires
        state_wf(v),
        offer_exists(v, offer_id),
    ensures
        offer_exists(create_next(v, creator, recipient, amount, now), offer_id),
        offer_at(create_next(v, creator, recipient, amount, now), offer_id) == offer_at(
            v,
            offer_id,
        ),
{
    assert(create_next(v, creator, recipient, amount, now).offers[offer_id - 1] == v.offers[
        offer_id - 1
    ]);
}

/// A stored offer is untouched by the settlement of a different offer, so
/// — together with the two laws above — a settled status is permanent.
pub proof fn lemma_other_settlement_preserves_offer(v: StateView, offer_id: u64, other_id: u64)
    requires
        state_wf(v),
        offer_exists(v, offer_id),
        offer_exists(v, other_id),
        other_id != offer_id,
    ensures
        offer_exists(cancel_next(v, other_id), offer_id),
        offer_at(cancel_next(v, other_id), offer_id) == offer_at(v, offer_id),
        offer_exists(accept_next(v, other_id), offer_id),
        offer_at(accept_next(v, other_id), offer_id) == offer_at(v, offer_id),
{
    assert(cancel_next(v, other_id).offers[offer_id - 1] == v.offers[offer_id - 1]);
    assert(accept_next(v, other_id).offers[offer_id - 1] == v.offers[offer_id - 1]);
}

/// Law: `cancel` succeeds exactly when the offer exists, is `Active` and
/// the caller is its creator; then the full amount is refunded to the
/// caller, the offer becomes `Cancelled` and nothing else changes.  Each
/// failure is pinned to its cause, checked in order.
pub proof fn lemma_cancel_characterization(v: StateView, offer_id: u64, caller: u64)
    requires
        state_wf(v),
    ensures
        cancel_check(v, offer_id, caller) is Ok <==> (offer_exists(v, offer_id) && offer_at(
            v,
            offer_id,
        ).status == OfferStatus::Active && offer_at(v, offer_id).creator == caller),
        !offer_exists(v, offer_id) ==> cancel_check(v, offer_id, caller) == Err::<(), EscrowError>(
            EscrowError::OfferNotFound,
        ),
        offer_exists(v, offer_id) && offer_at(v, offer_id).status != OfferStatus::Active
            ==> cancel_check(v, offer_id, caller) == Err::<(), EscrowError>(
            EscrowError::OfferNotActive,
        ),
        offer_exists(v, offer_id) && offer_at(v, offer_id).status == OfferStatus::Active
            && offer_at(v, offer_id).creator != caller ==> cancel_check(v, offer_id, caller)
            == Err::<(), EscrowError>(EscrowError::NotOfferCreator),
        cancel_check(v, offer_id, caller) is Ok ==> cancel_outcome(v, offer_id, caller)
            == Ok::<Transfer, EscrowError>(
            (Transfer { to: caller, amount: offer_at(v, offer_id).amount }),
        ),
        cancel_check(v, offer_id, caller) is Ok ==> offer_at(cancel_next(v, offer_id), offer_id)
            == settled_offer(offer_at(v, offer_id), OfferStatus::Cancelled),
        cancel_next(v, offer_id).last_offer_id == v.last_offer_id,
        cancel_next(v, offer_id).offers_by_creator == v.offers_by_creator,
        cancel_next(v, offer_id).offers_incoming == v.offers_incoming,
{
}

/// Law: `accept` succeeds exactly when the offer exists, is `Active` and
/// the caller is its recipient; then the full amount is paid to the caller,
/// the offer becomes `Completed` and nothing else changes.  Each failure is
/// pinned to its cause, checked in order.
pub proof fn lemma_accept_characterization(v: StateView, offer_id: u64, caller: u64)
    requires
        state_wf(v),
    ensures
        accept_check(v, offer_id, caller) is Ok <==> (offer_exists(v, offer_id) && offer_at(
            v,
            offer_id,
        ).status == OfferStatus::Active && offer_at(v, offer_id).recipient == caller),
        !offer_exists(v, offer_id) ==> accept_check(v, offer_id, caller) == Err::<(), EscrowError>(
            EscrowError::OfferNotFound,
        ),
        offer_exists(v, offer_id) && offer_at(v, offer_id).status != OfferStatus::Active
            ==> accept_check(v, offer_id, caller) == Err::<(), EscrowError>(
            EscrowError::OfferNotActive,
        ),
        offer_exists(v, offer_id) && offer_at(v, offer_id).status == OfferStatus::Active
            && offer_at(v, offer_id).recipient != caller ==> accept_check(v, offer_id, caller)
            == Err::<(), EscrowError>(EscrowError::NotOfferRecipient),
        accept_check(v, offer_id, caller) is Ok ==> accept_outcome(v, offer_id, caller)
            == Ok::<Transfer, EscrowError>(
            (Transfer { to: caller, amount: offer_at(v, offer_id).amount }),
        ),
        accept_check(v, offer_id, caller) is Ok ==> offer_at(accept_next(v, offer_id), offer_id)
            == settled_offer(offer_at(v, offer_id), OfferStatus::Completed),
        accept_next(v, offer_id).last_offer_id == v.last_offer_id,
        accept_next(v, offer_id).offers_by_creator == v.offers_by_creator,
        accept_next(v, offer_id).offers_incoming == v.offers_incoming,
{
}

/// Every element of a scan of the first `n` positions is an `Active` stored
/// offer, every `Active` offer among those positions is in the scan, and
/// the scan ascends by id.
proof fn lemma_active_prefix_props(offers: Seq<Offer>, n: int)
    requires
        0 <= n <= offers.len(),
        forall|i: int| 0 <= i < offers.len() ==> (#[trigger] offers[i]).offer_id == i + 1,
    ensures
        ({
            let r = active_prefix(offers, n);
            &&& forall|t: int|
                0 <= t < r.len() ==> (#[trigger] r[t]).status == OfferStatus::Active
            &&& forall|t: int|
                0 <= t < r.len() ==> 1 <= (#[trigger] r[t]).offer_id && r[t].offer_id <= n
                    && offers[r[t].offer_id - 1] == r[t]
            &&& forall|i: int|
                0 <= i < n && (#[trigger] offers[i]).status == OfferStatus::Active ==> r.contains(
                    offers[i],
                )
            &&& forall|t: int, u: int| 0 <= t < u < r.len() ==> r[t].offer_id < r[u].offer_id
        }),
    decreases n,
{
    if n > 0 {
        lemma_active_prefix_props(offers, n - 1);
        let r0 = active_prefix(offers, n - 1);
        let r = active_prefix(offers, n);
        if offers[n - 1].status == OfferStatus::Active {
            assert(r == r0.push(offers[n - 1]));
            assert forall|i: int|
                0 <= i < n && (#[trigger] offers[i]).status == OfferStatus::Active implies r
                .contains(offers[i]) by {
                if i < n - 1 {
                    lemma_push_keeps_contains(r0, offers[n - 1], offers[i]);
                } else {
                    assert(r[r.len() - 1] == offers[n - 1]);
                }
            }
        }
    }
}

/// Law: `get_active_offers` is exact.  The full scan contains an offer if
/// and only if it is stored and still `Active`, and it lists the offers in
/// strictly ascending id order.
pub proof fn lemma_active_offers_exact(v: StateView)
    requires
        state_wf(v),
    ensures
        ({
            let r = active_prefix(v.offers, v.offers.len() as int);
            &&& forall|o: Offer|
                #[trigger] r.contains(o) <==> (offer_exists(v, o.offer_id) && offer_at(
                    v,
                    o.offer_id,
                ) == o && o.status == OfferStatus::Active)
            &&& forall|t: int, u: int| 0 <= t < u < r.len() ==> r[t].offer_id < r[u].offer_id
        }),
{
    let n = v.offers.len() as int;
    let r = active_prefix(v.offers, n);
    lemma_active_prefix_props(v.offers, n);
    assert forall|o: Offer| #[trigger] r.contains(o) implies (offer_exists(v, o.offer_id)
        && offer_at(v, o.offer_id) == o && o.status == OfferStatus::Active) by {
        let t = choose|t: int| 0 <= t < r.len() && r[t] == o;
        assert(1 <= r[t].offer_id && r[t].offer_id <= n && v.offers[r[t].offer_id - 1] == r[t]);
    }
    assert forall|o: Offer|
        offer_exists(v, o.offer_id) && offer_at(v, o.offer_id) == o && o.status
            == OfferStatus::Active implies #[trigger] r.contains(o) by {
        let i = o.offer_id - 1;
        assert(v.offers[i] == o);
        assert(v.offers[i].status == OfferStatus::Active);
        assert(r.contains(v.offers[i]));
    }
}

/// The custody sum is never negative: every contribution is an unsigned
/// amount or zero.
pub proof fn lemma_active_total_nonneg(offers: Seq<Offer>)
    ensures
        active_total(offers) >= 0,
    decreases offers.len(),
{
    if offers.len() > 0 {
        lemma_active_total_nonneg(offers.drop_last());
    }
}

/// Appending an offer adds exactly what it holds to the custody sum.
proof fn lemma_active_total_push(offers: Seq<Offer>, o: Offer)
    ensures
        active_total(offers.push(o)) == active_total(offers) + amount_if_active(o),
{
    assert(offers.push(o).drop_last() =~= offers);
}

/// Rewriting one stored offer moves the custody sum by exactly the
/// difference of that offer's contribution.
proof fn lemma_active_total_update(offers: Seq<Offer>, i: int, o2: Offer)
    requires
        0 <= i < offers.len(),
    ensures
        active_total(offers.update(i, o2)) == active_total(offers) - amount_if_active(offers[i])
            + amount_if_active(o2),
    decreases offers.len(),
{
    let offers2 = offers.update(i, o2);
    if i == offers.len() - 1 {
        assert(offers2.drop_last() =~= offers.drop_last());
        assert(offers2.last() == o2);
    } else {
        assert(offers2.drop_last() =~= offers.drop_last().update(i, o2));
        assert(offers2.last() == offers.last());
        lemma_active_total_update(offers.drop_last(), i, o2);
    }
}

/// Law (custody conservation, deposit side): a successful `create` raises
/// the custodied total by exactly the attached amount — the new offer holds
/// its full deposit and no other offer's holding moves.
pub proof fn lemma_create_deposits(
    v: StateView,
    creator: u64,
    recipient: u64,
    amount: u128,
    now: u64,
)
    requires
        state_wf(v),
        create_allowed(amount),
    ensures
        active_total(create_next(v, creator, recipient, amount, now).offers) == active_total(
            v.offers,
        ) + amount,
{
    lemma_active_total_push(v.offers, created_offer(v, creator, recipient, amount, now));
}

/// Law (custody conservation, release side): a successful `cancel` lowers
/// the custodied total by exactly the amount of the transfer it returns —
/// the settled offer holds nothing afterwards, and no other offer's holding
/// moves.  With the at-most-once law this is the no-double-release,
/// no-lost-funds invariant: over any run, what was deposited for an offer is
/// released exactly once when it settles, and is still held while `Active`.
pub proof fn lemma_cancel_releases_exactly(v: StateView, offer_id: u64, caller: u64)
    requires
        state_wf(v),
        cancel_check(v, offer_id, caller) is Ok,
    ensures
        cancel_outcome(v, offer_id, caller) == Ok::<Transfer, EscrowError>(
            (Transfer { to: caller, amount: offer_at(v, offer_id).amount }),
        ),
        active_total(cancel_next(v, offer_id).offers) + offer_at(v, offer_id).amount
            == active_total(v.offers),
        amount_if_active(offer_at(cancel_next(v, offer_id), offer_id)) == 0,
{
    lemma_active_total_update(
        v.offers,
        offer_id - 1,
        settled_offer(offer_at(v, offer_id), OfferStatus::Cancelled),
    );
}

/// Law (custody conservation, release side): a successful `accept` lowers
/// the custodied total by exactly the amount of the transfer it returns, and
/// the settled offer holds nothing afterwards.
pub proof fn lemma_accept_releases_exactly(v: StateView, offer_id: u64, caller: u64)
    requires
        state_wf(v),
        accept_check(v, offer_id, caller) is Ok,
    ensures
        accept_outcome(v, offer_id, caller) == Ok::<Transfer, EscrowError>(
            (Transfer { to: caller, amount: offer_at(v, offer_id).amount }),
        ),
        active_total(accept_next(v, offer_id).offers) + offer_at(v, offer_id).amount
            == active_total(v.offers),
        amount_if_active(offer_at(accept_next(v, offer_id), offer_id)) == 0,
{
    lemma_active_total_update(
        v.offers,
        offer_id - 1,
        settled_offer(offer_at(v, offer_id), OfferStatus::Completed),
    );
}

/// Over any run of successful invocations from a well-formed state, the
/// change in the custodied total is exactly deposits minus releases.
pub proof fn lemma_run_conservation(v: StateView, steps: Seq<LedgerStep>)
    requires
        state_wf(v),
        run_ok(v, steps),
    ensures
        state_wf(run_final(v, steps)),
        active_total(run_final(v, steps).offers) == active_total(v.offers) + run_deposits(steps)
            - run_releases(v, steps),
    decreases steps.len(),
{
    if steps.len() > 0 {
        let s = steps[0];
        let v1 = step_next(v, s);
        lemma_step_wf(v, s);
        match s {
            LedgerStep::Create { creator, recipient, amount, now } => {
                lemma_create_deposits(v, creator, recipient, amount, now);
            },
            LedgerStep::Cancel { offer_id, caller } => {
                lemma_cancel_releases_exactly(v, offer_id, caller);
            },
            LedgerStep::Accept { offer_id, caller } => {
                lemma_accept_releases_exactly(v, offer_id, caller);
            },
        }
        lemma_run_conservation(v1, steps.drop_first());
    }
}

/// Law (custody conservation over whole histories): starting from the empty
/// ledger, after any sequence of successful invocations the value still
/// custodied — the sum over every `Active` offer ever created — is exactly
/// everything deposited minus everything released.  Nothing is paid twice
/// and nothing is lost: a settled offer's deposit has left exactly once,
/// an `Active` offer's deposit is still held in full.
pub proof fn theorem_custody_conservation(steps: Seq<LedgerStep>)
    requires
        run_ok(initial_state(), steps),
    ensures
        state_wf(run_final(initial_state(), steps)),
        active_total(run_final(initial_state(), steps).offers) == run_deposits(steps)
            - run_releases(initial_state(), steps),
{
    lemma_initial_state_wf();
    assert(active_total(initial_state().offers) == 0);
    lemma_run_conservation(initial_state(), steps);
}

/// Law (terminality over whole histories): once an offer has left `Active`,
/// no run of successful invocations ever touches it again — its record is
/// unchanged at the end of the run, and every `cancel` and every `accept`
/// of it, by any caller, fails there with `OfferNotActive`.
pub proof fn theorem_settled_is_forever(v: StateView, offer_id: u64, steps: Seq<LedgerStep>)
    requires
        state_wf(v),
        run_ok(v, steps),
        offer_exists(v, offer_id),
        offer_at(v, offer_id).status != OfferStatus::Active,
    ensures
        state_wf(run_final(v, steps)),
        offer_exists(run_final(v, steps), offer_id),
        offer_at(run_final(v, steps), offer_id) == offer_at(v, offer_id),
        forall|caller: u64|
            cancel_check(run_final(v, steps), offer_id, caller) == Err::<(), EscrowError>(
                EscrowError::OfferNotActive,
            ),
        forall|caller: u64|
            accept_check(run_final(v, steps), offer_id, caller) == Err::<(), EscrowError>(
                EscrowError::OfferNotActive,
            ),
    decreases steps.len(),
{
    let vf = run_final(v, steps);
    if steps.len() == 0 {
        assert forall|caller: u64|
            cancel_check(vf, offer_id, caller) == Err::<(), EscrowError>(
                EscrowError::OfferNotActive,
            ) && accept_check(vf, offer_id, caller) == Err::<(), EscrowError>(
                EscrowError::OfferNotActive,
            ) by {
            lemma_settled_rejects_settlement(v, offer_id, caller);
        }
    } else {
        let s = steps[0];
        let v1 = step_next(v, s);
        lemma_step_wf(v, s);
        match s {
            LedgerStep::Create { creator, recipient, amount, now } => {
                lemma_create_preserves_offer(v, offer_id, creator, recipient, amount, now);
            },
            LedgerStep::Cancel { offer_id: other_id, caller } => {
                assert(offer_at(v, other_id).status == OfferStatus::Active);
                lemma_other_settlement_preserves_offer(v, offer_id, other_id);
            },
            LedgerStep::Accept { offer_id: other_id, caller } => {
                assert(offer_at(v, other_id).status == OfferStatus::Active);
                lemma_other_settlement_preserves_offer(v, offer_id, other_id);
            },
        }
        theorem_settled_is_forever(v1, offer_id, steps.drop_first());
    }
}

} // verus!
