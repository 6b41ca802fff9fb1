use escrow_sc::escrow::EscrowContract;
use escrow_sc::offers::{EscrowError, Offer, OfferStatus, Transfer};

const ALICE: u64 = 0xA11CE;
const BOB: u64 = 0xB0B;
const CAROL: u64 = 0xCA201;

#[test]
fn fresh_ledger_is_empty() {
    let ledger = EscrowContract::new();
    assert_eq!(ledger.get_last_offer_id(), 0);
    assert_eq!(ledger.get_offer(1), Err(EscrowError::OfferNotFound));
    assert!(ledger.get_active_offers().is_empty());
    assert!(ledger.get_user_offers(ALICE).is_empty());
    assert!(ledger.get_user_incoming_offers(BOB).is_empty());
}

#[test]
fn create_assigns_dense_sequential_ids() {
    let mut ledger = EscrowContract::new();
    assert_eq!(ledger.create(ALICE, BOB, 100, 1), Ok(1));
    assert_eq!(ledger.create(BOB, CAROL, 7, 2), Ok(2));
    assert_eq!(ledger.create(ALICE, CAROL, 1, 3), Ok(3));
    assert_eq!(ledger.get_last_offer_id(), 3);
    for id in 1..=3u64 {
        assert_eq!(ledger.get_offer(id).unwrap().offer_id, id);
    }
}

#[test]
fn create_stores_the_full_record() {
    let mut ledger = EscrowContract::new();
    assert_eq!(ledger.create(ALICE, BOB, 250, 777), Ok(1));
    let offer = ledger.get_offer(1).unwrap();
    assert_eq!(
        offer,
        Offer {
            offer_id: 1,
            creator: ALICE,
            recipient: BOB,
            amount: 250,
            status: OfferStatus::Active,
            created_timestamp: 777,
        }
    );
}

#[test]
fn create_with_zero_amount_fails_and_changes_nothing() {
    let mut ledger = EscrowContract::new();
    assert_eq!(ledger.create(ALICE, BOB, 0, 1), Err(EscrowError::ZeroPayment));
    assert_eq!(ledger.get_last_offer_id(), 0);
    assert_eq!(ledger.get_offer(1), Err(EscrowError::OfferNotFound));
    assert!(ledger.get_user_offers(ALICE).is_empty());
    assert!(ledger.get_user_incoming_offers(BOB).is_empty());
}

#[test]
fn cancel_by_creator_refunds_and_settles() {
    // A creates an offer for B with amount 100; B may not cancel it; A may,
    // is refunded in full, and the offer is terminally cancelled.
    let mut ledger = EscrowContract::new();
    assert_eq!(ledger.create(ALICE, BOB, 100, 1), Ok(1));
    assert_eq!(ledger.cancel_offer(1, BOB), Err(EscrowError::NotOfferCreator));
    assert_eq!(ledger.cancel_offer(1, ALICE), Ok(Transfer { to: ALICE, amount: 100 }));
    assert_eq!(ledger.get_offer(1).unwrap().status, OfferStatus::Cancelled);
    assert_eq!(ledger.accept_offer(1, BOB), Err(EscrowError::OfferNotActive));
}

#[test]
fn accept_by_recipient_pays_and_completes() {
    // A creates an offer for B with amount 50; A may not accept it; B may,
    // receives the full amount, and the offer is terminally completed.
    let mut ledger = EscrowContract::new();
    assert_eq!(ledger.create(ALICE, BOB, 50, 2), Ok(1));
    assert_eq!(ledger.accept_offer(1, ALICE), Err(EscrowError::NotOfferRecipient));
    assert_eq!(ledger.accept_offer(1, BOB), Ok(Transfer { to: BOB, amount: 50 }));
    assert_eq!(ledger.get_offer(1).unwrap().status, OfferStatus::Completed);
}

#[test]
fn settled_offer_rejects_every_later_settlement() {
    let mut ledger = EscrowContract::new();
    assert_eq!(ledger.create(ALICE, BOB, 10, 1), Ok(1));
    assert_eq!(ledger.create(ALICE, BOB, 20, 2), Ok(2));
    assert_eq!(ledger.cancel_offer(1, ALICE), Ok(Transfer { to: ALICE, amount: 10 }));
    assert_eq!(ledger.cancel_offer(1, ALICE), Err(EscrowError::OfferNotActive));
    assert_eq!(ledger.accept_offer(1, BOB), Err(EscrowError::OfferNotActive));
    assert_eq!(ledger.accept_offer(2, BOB), Ok(Transfer { to: BOB, amount: 20 }));
    assert_eq!(ledger.accept_offer(2, BOB), Err(EscrowError::OfferNotActive));
    assert_eq!(ledger.cancel_offer(2, ALICE), Err(EscrowError::OfferNotActive));
}

#[test]
fn missing_offer_is_reported_before_anything_else() {
    let mut ledger = EscrowContract::new();
    assert_eq!(ledger.cancel_offer(1, ALICE), Err(EscrowError::OfferNotFound));
    assert_eq!(ledger.accept_offer(1, BOB), Err(EscrowError::OfferNotFound));
    assert_eq!(ledger.create(ALICE, BOB, 5, 1), Ok(1));
    assert_eq!(ledger.cancel_offer(0, ALICE), Err(EscrowError::OfferNotFound));
    assert_eq!(ledger.accept_offer(2, BOB), Err(EscrowError::OfferNotFound));
}

#[test]
fn status_is_checked_before_authorization() {
    // On a settled offer even a stranger's settlement attempt reports
    // OfferNotActive, not the authorization failure.
    let mut ledger = EscrowContract::new();
    assert_eq!(ledger.create(ALICE, BOB, 10, 1), Ok(1));
    assert_eq!(ledger.cancel_offer(1, ALICE), Ok(Transfer { to: ALICE, amount: 10 }));
    assert_eq!(ledger.cancel_offer(1, CAROL), Err(EscrowError::OfferNotActive));
    assert_eq!(ledger.accept_offer(1, CAROL), Err(EscrowError::OfferNotActive));
}

#[test]
fn active_offers_are_exactly_the_unsettled_ones_in_id_order() {
    let mut ledger = EscrowContract::new();
    assert_eq!(ledger.create(ALICE, BOB, 10, 1), Ok(1));
    assert_eq!(ledger.create(BOB, CAROL, 20, 2), Ok(2));
    assert_eq!(ledger.create(CAROL, ALICE, 30, 3), Ok(3));
    assert_eq!(ledger.cancel_offer(2, BOB), Ok(Transfer { to: BOB, amount: 20 }));
    let active = ledger.get_active_offers();
    assert_eq!(active.len(), 2);
    assert_eq!(active[0].offer_id, 1);
    assert_eq!(active[1].offer_id, 3);
    assert!(active.iter().all(|o| o.status == OfferStatus::Active));
    assert_eq!(ledger.accept_offer(1, BOB), Ok(Transfer { to: BOB, amount: 10 }));
    assert_eq!(ledger.accept_offer(3, ALICE), Ok(Transfer { to: ALICE, amount: 30 }));
    assert!(ledger.get_active_offers().is_empty());
}

#[test]
fn user_indices_keep_every_id_ever_recorded() {
    let mut ledger = EscrowContract::new();
    assert_eq!(ledger.create(ALICE, BOB, 10, 1), Ok(1));
    assert_eq!(ledger.create(BOB, ALICE, 20, 2), Ok(2));
    assert_eq!(ledger.create(ALICE, CAROL, 30, 3), Ok(3));
    assert_eq!(ledger.cancel_offer(1, ALICE), Ok(Transfer { to: ALICE, amount: 10 }));
    // Settling removes nothing: the indices reflect "ever associated with".
    assert_eq!(ledger.get_user_offers(ALICE), vec![1, 3]);
    assert_eq!(ledger.get_user_offers(BOB), vec![2]);
    assert_eq!(ledger.get_user_incoming_offers(ALICE), vec![2]);
    assert_eq!(ledger.get_user_incoming_offers(BOB), vec![1]);
    assert_eq!(ledger.get_user_incoming_offers(CAROL), vec![3]);
}

#[test]
fn user_active_queries_filter_out_settled_offers() {
    // After A's offer is cancelled, A has no active created offers; after
    // B accepts an offer directed to B, B has no active incoming offers.
    let mut ledger = EscrowContract::new();
    assert_eq!(ledger.create(ALICE, BOB, 100, 1), Ok(1));
    assert_eq!(ledger.cancel_offer(1, ALICE), Ok(Transfer { to: ALICE, amount: 100 }));
    assert!(ledger.get_user_active_offers(ALICE).is_empty());
    assert_eq!(ledger.create(ALICE, BOB, 50, 2), Ok(2));
    assert_eq!(ledger.accept_offer(2, BOB), Ok(Transfer { to: BOB, amount: 50 }));
    assert!(ledger.get_user_incoming_active_offers(BOB).is_empty());
}

#[test]
fn user_active_queries_keep_index_order() {
    let mut ledger = EscrowContract::new();
    assert_eq!(ledger.create(ALICE, BOB, 10, 1), Ok(1));
    assert_eq!(ledger.create(ALICE, CAROL, 20, 2), Ok(2));
    assert_eq!(ledger.create(ALICE, BOB, 30, 3), Ok(3));
    assert_eq!(ledger.cancel_offer(2, ALICE), Ok(Transfer { to: ALICE, amount: 20 }));
    let mine = ledger.get_user_active_offers(ALICE);
    assert_eq!(mine.len(), 2);
    assert_eq!(mine[0].offer_id, 1);
    assert_eq!(mine[1].offer_id, 3);
    let incoming = ledger.get_user_incoming_active_offers(BOB);
    assert_eq!(incoming.len(), 2);
    assert_eq!(incoming[0].offer_id, 1);
    assert_eq!(incoming[1].offer_id, 3);
    // An address that never took part has nothing, active or otherwise.
    assert!(ledger.get_user_active_offers(BOB).is_empty());
    assert!(ledger.get_user_incoming_active_offers(ALICE).is_empty());
}

#[test]
fn released_amounts_match_deposits_exactly() {
    // Custody conservation on a concrete run: what each settlement releases
    // is exactly what the offer deposited, and each offer pays out once.
    let mut ledger = EscrowContract::new();
    let deposits: [u128; 3] = [100, 250, 4];
    for (k, amount) in deposits.iter().enumerate() {
        assert_eq!(ledger.create(ALICE, BOB, *amount, k as u64), Ok(k as u64 + 1));
    }
    let mut released: u128 = 0;
    let refund = ledger.cancel_offer(1, ALICE).unwrap();
    assert_eq!(refund, Transfer { to: ALICE, amount: 100 });
    released += refund.amount;
    let payout = ledger.accept_offer(3, BOB).unwrap();
    assert_eq!(payout, Transfer { to: BOB, amount: 4 });
    released += payout.amount;
    // Offer 2 is still active: its deposit is still custodied, not released.
    assert_eq!(released, 104);
    assert_eq!(ledger.get_active_offers().len(), 1);
    assert_eq!(ledger.get_active_offers()[0].amount, 250);
}

#[test]
fn large_amounts_are_carried_exactly() {
    let mut ledger = EscrowContract::new();
    let big: u128 = u128::MAX;
    assert_eq!(ledger.create(ALICE, BOB, big, 1), Ok(1));
    assert_eq!(ledger.accept_offer(1, BOB), Ok(Transfer { to: BOB, amount: big }));
}
