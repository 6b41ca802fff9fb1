//! Mathematical model of the escrow ledger.
//!
//! `StateView` is the spec-level image of the whole durable state; the
//! transition functions below say, purely in spec land, what each mutating
//! operation checks and what state it produces.  The executable ledger in
//! `escrow` promises in its contracts to follow these functions exactly, and
//! the laws in `laws` are proved about them.

use vstd::prelude::*;

use crate::offers::{EscrowError, Offer, OfferStatus, Transfer};

verus! {

/// The whole durable state, seen abstractly: the id counter, the append-only
/// offer ledger (the offer with id `i` sits at position `i - 1`), and the two
/// address indices as total maps from an address to the sequence of offer ids
/// ever recorded for it, in the order they were recorded.
#[verifier::ext_equal]
pub struct StateView {
    pub last_offer_id: u64,
    pub offers: Seq<Offer>,
    pub offers_by_creator: Map<u64, Seq<u64>>,
    pub offers_incoming: Map<u64, Seq<u64>>,
}

/// Does an offer with this id exist?  Ids are dense, so existence is a range
/// check against the ledger length.
pub open spec fn offer_exists(v: StateView, offer_id: u64) -> bool {
    1 <= offer_id && offer_id <= v.offers.len()
}

/// The stored offer with the given id (meaningful when it exists).
pub open spec fn offer_at(v: StateView, offer_id: u64) -> Offer {
    v.offers[offer_id - 1]
}

/// The address an index entry is keyed by: the creator for the creator-side
/// index, the recipient for the incoming-side index.
pub open spec fn owner_key(o: Offer, creator_side: bool) -> u64 {
    if creator_side {
        o.creator
    } else {
        o.recipient
    }
}

/// Soundness of one index entry: every listed id names a stored offer owned
/// by this address, and ids are strictly increasing (they were recorded in
/// creation order and never removed).
pub open spec fn entry_valid(ids: Seq<u64>, offers: Seq<Offer>, addr: u64, creator_side: bool) -> bool {
    &&& forall|j: int| 0 <= j < ids.len() ==> 1 <= #[trigger] ids[j] && ids[j] <= offers.len()
    &&& forall|j: int|
        0 <= j < ids.len() ==> owner_key(offers[#[trigger] ids[j] - 1], creator_side) == addr
    &&& forall|j: int, k: int| 0 <= j < k < ids.len() ==> ids[j] < ids[k]
}

/// Soundness and completeness of a whole index: it is total, every entry is
/// valid, and every stored offer's id appears under its owner's address.
pub open spec fn index_wf(m: Map<u64, Seq<u64>>, offers: Seq<Offer>, creator_side: bool) -> bool {
    &&& m.dom() == Set::<u64>::full()
    &&& forall|addr: u64| entry_valid(#[trigger] m[addr], offers, addr, creator_side)
    &&& forall|i: int|
        0 <= i < offers.len() ==> m[owner_key(#[trigger] offers[i], creator_side)].contains(
            (i + 1) as u64,
        )
}

/// The ledger invariant: the counter equals the number of offers ever
/// created, ids are dense (`1, 2, 3, …` in creation order), every stored
/// amount is positive, and both indices are sound and complete.
pub open spec fn state_wf(v: StateView) -> bool {
    &&& v.offers.len() == v.last_offer_id
    &&& forall|i: int| 0 <= i < v.offers.len() ==> (#[trigger] v.offers[i]).offer_id == i + 1
    &&& forall|i: int| 0 <= i < v.offers.len() ==> (#[trigger] v.offers[i]).amount > 0
    &&& index_wf(v.offers_by_creator, v.offers, true)
    &&& index_wf(v.offers_incoming, v.offers, false)
}

/// An index with no recorded ids for any address.
pub open spec fn empty_index() -> Map<u64, Seq<u64>> {
    Map::new(|addr: u64| true, |addr: u64| Seq::<u64>::empty())
}

/// The state of a freshly initialized ledger: no offers, counter at 0.
pub open spec fn initial_state() -> StateView {
    StateView {
        last_offer_id: 0,
        offers: Seq::empty(),
        offers_by_creator: empty_index(),
        offers_incoming: empty_index(),
    }
}

/// `create` accepts exactly the calls that attach a positive amount.
pub open spec fn create_allowed(amount: u128) -> bool {
    amount > 0
}

/// What `create` returns: the next id on success, `ZeroPayment` otherwise.
pub open spec fn create_outcome(v: StateView, amount: u128) -> Result<u64, EscrowError> {
    if create_allowed(amount) {
        Ok(((v.last_offer_id + 1) as u64))
    } else {
        Err(EscrowError::ZeroPayment)
    }
}

/// The record a successful `create` appends.
pub open spec fn created_offer(
    v: StateView,
    creator: u64,
    recipient: u64,
    amount: u128,
    now: u64,
) -> Offer {
    Offer {
        offer_id: (v.last_offer_id + 1) as u64,
        creator: creator,
        recipient: recipient,
        amount: amount,
        status: OfferStatus::Active,
        created_timestamp: now,
    }
}

/// The state after a successful `create`: counter bumped, the new record
/// appended, and its id recorded under the creator and the recipient.
pub open spec fn create_next(
    v: StateView,
    creator: u64,
    recipient: u64,
    amount: u128,
    now: u64,
) -> StateView {
    let id = (v.last_offer_id + 1) as u64;
    StateView {
        last_offer_id: id,
        offers: v.offers.push(created_offer(v, creator, recipient, amount, now)),
        offers_by_creator: v.offers_by_creator.insert(
            creator,
            v.offers_by_creator[creator].push(id),
        ),
        offers_incoming: v.offers_incoming.insert(
            recipient,
            v.offers_incoming[recipient].push(id),
        ),
    }
}

/// The preconditions of `cancel`, checked in order, first failure winning:
/// the offer exists, is still `Active`, and the caller is its creator.
pub open spec fn cancel_check(v: StateView, offer_id: u64, caller: u64) -> Result<
    (),
    EscrowError,
> {
    if !offer_exists(v, offer_id) {
        Err(EscrowError::OfferNotFound)
    } else if offer_at(v, offer_id).status != OfferStatus::Active {
        Err(EscrowError::OfferNotActive)
    } else if offer_at(v, offer_id).creator != caller {
        Err(EscrowError::NotOfferCreator)
    } else {
        Ok(())
    }
}

/// The preconditions of `accept`, checked in order, first failure winning:
/// the offer exists, is still `Active`, and the caller is its recipient.
pub open spec fn accept_check(v: StateView, offer_id: u64, caller: u64) -> Result<
    (),
    EscrowError,
> {
    if !offer_exists(v, offer_id) {
        Err(EscrowError::OfferNotFound)
    } else if offer_at(v, offer_id).status != OfferStatus::Active {
        Err(EscrowError::OfferNotActive)
    } else if offer_at(v, offer_id).recipient != caller {
        Err(EscrowError::NotOfferRecipient)
    } else {
        Ok(())
    }
}

/// The stored offer rewritten with a terminal status; every other field,
/// the indices and the counter are untouched by a settlement.
pub open spec fn settled_offer(o: Offer, status: OfferStatus) -> Offer {
    Offer { status: status, ..o }
}

/// The state after a successful `cancel`: only the offer's status changes.
pub open spec fn cancel_next(v: StateView, offer_id: u64) -> StateView {
    StateView {
        offers: v.offers.update(
            offer_id - 1,
            settled_offer(offer_at(v, offer_id), OfferStatus::Cancelled),
        ),
        ..v
    }
}

/// The state after a successful `accept`: only the offer's status changes.
pub open spec fn accept_next(v: StateView, offer_id: u64) -> StateView {
    StateView {
        offers: v.offers.update(
            offer_id - 1,
            settled_offer(offer_at(v, offer_id), OfferStatus::Completed),
        ),
        ..v
    }
}

/// What `cancel` returns: on success, the release of the full custodied
/// amount to the caller (the creator); otherwise the first failed check.
pub open spec fn cancel_outcome(v: StateView, offer_id: u64, caller: u64) -> Result<
    Transfer,
    EscrowError,
> {
    match cancel_check(v, offer_id, caller) {
        Ok(()) => Ok((Transfer { to: caller, amount: offer_at(v, offer_id).amount })),
        Err(e) => Err(e),
    }
}

/// What `accept` returns: on success, the release of the full custodied
/// amount to the caller (the recipient); otherwise the first failed check.
pub open spec fn accept_outcome(v: StateView, offer_id: u64, caller: u64) -> Result<
    Transfer,
    EscrowError,
> {
    match accept_check(v, offer_id, caller) {
        Ok(()) => Ok((Transfer { to: caller, amount: offer_at(v, offer_id).amount })),
        Err(e) => Err(e),
    }
}

/// The `Active` offers among the first `n` ledger positions, in position
/// (that is, ascending id) order: the image of a full scan `1..=n`.
pub open spec fn active_prefix(offers: Seq<Offer>, n: int) -> Seq<Offer>
    decreases n,
{
    if n <= 0 {
        Seq::empty()
    } else if offers[n - 1].status == OfferStatus::Active {
        active_prefix(offers, n - 1).push(offers[n - 1])
    } else {
        active_prefix(offers, n - 1)
    }
}

/// The `Active` offers among those named by `ids`, in index order.
pub open spec fn active_from_ids(offers: Seq<Offer>, ids: Seq<u64>) -> Seq<Offer>
    decreases ids.len(),
{
    if ids.len() == 0 {
        Seq::empty()
    } else if offers[ids.last() - 1].status == OfferStatus::Active {
        active_from_ids(offers, ids.drop_last()).push(offers[ids.last() - 1])
    } else {
        active_from_ids(offers, ids.drop_last())
    }
}

/// What an offer still holds in custody: its full amount while `Active`,
/// nothing once settled — the funds have left with the settlement.
pub open spec fn amount_if_active(o: Offer) -> int {
    if o.status == OfferStatus::Active {
        o.amount as int
    } else {
        0
    }
}

/// The total value still custodied: the sum over all offers ever created of
/// what each still holds.
pub open spec fn active_total(offers: Seq<Offer>) -> int
    decreases offers.len(),
{
    if offers.len() == 0 {
        0
    } else {
        active_total(offers.drop_last()) + amount_if_active(offers.last())
    }
}

/// One invocation of a mutating operation, with its arguments: the alphabet
/// of the ledger's history.
pub enum LedgerStep {
    Create { creator: u64, recipient: u64, amount: u128, now: u64 },
    Cancel { offer_id: u64, caller: u64 },
    Accept { offer_id: u64, caller: u64 },
}

/// Does this invocation succeed from this state?  (`Create` additionally
/// needs unexhausted id space, a machine limit.)
pub open spec fn step_allowed(v: StateView, s: LedgerStep) -> bool {
    match s {
        LedgerStep::Create { creator, recipient, amount, now } => create_allowed(amount)
            && v.last_offer_id < u64::MAX,
        LedgerStep::Cancel { offer_id, caller } => cancel_check(v, offer_id, caller) is Ok,
        LedgerStep::Accept { offer_id, caller } => accept_check(v, offer_id, caller) is Ok,
    }
}

/// The state a successful invocation leads to.
pub open spec fn step_next(v: StateView, s: LedgerStep) -> StateView {
    match s {
        LedgerStep::Create { creator, recipient, amount, now } => create_next(
            v,
            creator,
            recipient,
            amount,
            now,
        ),
        LedgerStep::Cancel { offer_id, caller } => cancel_next(v, offer_id),
        LedgerStep::Accept { offer_id, caller } => accept_next(v, offer_id),
    }
}

/// What the invocation takes into custody: the attached amount of a
/// creation, nothing for a settlement.
pub open spec fn step_deposit(s: LedgerStep) -> int {
    match s {
        LedgerStep::Create { creator, recipient, amount, now } => amount as int,
        LedgerStep::Cancel { offer_id, caller } => 0,
        LedgerStep::Accept { offer_id, caller } => 0,
    }
}

/// What the invocation releases from custody: the settled offer's full
/// amount, nothing for a creation.
pub open spec fn step_release(v: StateView, s: LedgerStep) -> int {
    match s {
        LedgerStep::Create { creator, recipient, amount, now } => 0,
        LedgerStep::Cancel { offer_id, caller } => offer_at(v, offer_id).amount as int,
        LedgerStep::Accept { offer_id, caller } => offer_at(v, offer_id).amount as int,
    }
}

/// A run: every step succeeds from the state the previous steps produced.
pub open spec fn run_ok(v: StateView, steps: Seq<LedgerStep>) -> bool
    decreases steps.len(),
{
    steps.len() == 0 || (step_allowed(v, steps[0]) && run_ok(
        step_next(v, steps[0]),
        steps.drop_first(),
    ))
}

/// The state a run ends in.
pub open spec fn run_final(v: StateView, steps: Seq<LedgerStep>) -> StateView
    decreases steps.len(),
{
    if steps.len() == 0 {
        v
    } else {
        run_final(step_next(v, steps[0]), steps.drop_first())
    }
}

/// Everything deposited over a run.
pub open spec fn run_deposits(steps: Seq<LedgerStep>) -> int
    decreases steps.len(),
{
    if steps.len() == 0 {
        0
    } else {
        step_deposit(steps[0]) + run_deposits(steps.drop_first())
    }
}

/// Everything released over a run.
pub open spec fn run_releases(v: StateView, steps: Seq<LedgerStep>) -> int
    decreases steps.len(),
{
    if steps.len() == 0 {
        0
    } else {
        step_release(v, steps[0]) + run_releases(step_next(v, steps[0]), steps.drop_first())
    }
}

/// The freshly initialized ledger satisfies the invariant.
pub proof fn lemma_initial_state_wf()
    ensures
        state_wf(initial_state()),
{
    assert(empty_index().dom() =~= Set::<u64>::full());
    assert forall|addr: u64| entry_valid(
        #[trigger] empty_index()[addr],
        initial_state().offers,
        addr,
        true,
    ) by {
        assert(empty_index()[addr] == Seq::<u64>::empty());
    }
    assert forall|addr: u64| entry_valid(
        #[trigger] empty_index()[addr],
        initial_state().offers,
        addr,
        false,
    ) by {
        assert(empty_index()[addr] == Seq::<u64>::empty());
    }
}

/// Every successful invocation preserves the ledger invariant.
pub proof fn lemma_step_wf(v: StateView, s: LedgerStep)
    requires
        state_wf(v),
        step_allowed(v, s),
    ensures
        state_wf(step_next(v, s)),
{
    match s {
        LedgerStep::Create { creator, recipient, amount, now } => {
            lemma_create_next_wf(v, creator, recipient, amount, now);
        },
        LedgerStep::Cancel { offer_id, caller } => {
            lemma_cancel_next_wf(v, offer_id);
        },
        LedgerStep::Accept { offer_id, caller } => {
            lemma_accept_next_wf(v, offer_id);
        },
    }
}

/// A sequence keeps every element it had after a push.
pub proof fn lemma_push_keeps_contains<T>(s: Seq<T>, x: T, y: T)
    requires
        s.contains(y),
    ensures
        s.push(x).contains(y),
{
    let j = choose|j: int| 0 <= j < s.len() && s[j] == y;
    assert(s.push(x)[j] == y);
}

/// A valid index entry stays valid when the ledger grows by one offer:
/// none of its ids can name the new position.
proof fn lemma_entry_valid_extend(
    ids: Seq<u64>,
    offers: Seq<Offer>,
    addr: u64,
    creator_side: bool,
    o: Offer,
)
    requires
        entry_valid(ids, offers, addr, creator_side),
    ensures
        entry_valid(ids, offers.push(o), addr, creator_side),
{
    let offers2 = offers.push(o);
    assert forall|j: int| 0 <= j < ids.len() implies 1 <= #[trigger] ids[j] && ids[j]
        <= offers2.len() by {
        assert(1 <= ids[j] && ids[j] <= offers.len());
    }
    assert forall|j: int|
        0 <= j < ids.len() implies owner_key(offers2[#[trigger] ids[j] - 1], creator_side)
        == addr by {
        assert(1 <= ids[j] && ids[j] <= offers.len());
        assert(offers2[ids[j] - 1] == offers[ids[j] - 1]);
    }
}

/// Appending the fresh offer's id to its owner's entry keeps the entry
/// valid: the id is larger than every id already recorded.
proof fn lemma_entry_valid_push_id(
    ids: Seq<u64>,
    offers: Seq<Offer>,
    addr: u64,
    creator_side: bool,
    o: Offer,
    id: u64,
)
    requires
        entry_valid(ids, offers, addr, creator_side),
        id == offers.len() + 1,
        owner_key(o, creator_side) == addr,
    ensures
        entry_valid(ids.push(id), offers.push(o), addr, creator_side),
{
    let ids2 = ids.push(id);
    let offers2 = offers.push(o);
    assert forall|j: int| 0 <= j < ids2.len() implies 1 <= #[trigger] ids2[j] && ids2[j]
        <= offers2.len() by {
        if j < ids.len() {
            assert(ids2[j] == ids[j]);
            assert(1 <= ids[j] && ids[j] <= offers.len());
        } else {
            assert(ids2[j] == id);
        }
    }
    assert forall|j: int|
        0 <= j < ids2.len() implies owner_key(offers2[#[trigger] ids2[j] - 1], creator_side)
        == addr by {
        if j < ids.len() {
            assert(ids2[j] == ids[j]);
            assert(1 <= ids[j] && ids[j] <= offers.len());
            assert(offers2[ids[j] - 1] == offers[ids[j] - 1]);
        } else {
            assert(ids2[j] == id);
            assert(offers2[id - 1] == o);
        }
    }
    assert forall|j: int, k: int| 0 <= j < k < ids2.len() implies ids2[j] < ids2[k] by {
        if k < ids.len() {
            assert(ids2[j] == ids[j] && ids2[k] == ids[k]);
        } else {
            assert(ids2[k] == id);
            assert(ids2[j] == ids[j]);
            assert(1 <= ids[j] && ids[j] <= offers.len());
        }
    }
}

/// Recording the fresh offer's id under its owner keeps a whole index sound
/// and complete for the grown ledger.
proof fn lemma_index_insert_wf(
    m: Map<u64, Seq<u64>>,
    offers: Seq<Offer>,
    creator_side: bool,
    addr: u64,
    o: Offer,
    id: u64,
)
    requires
        index_wf(m, offers, creator_side),
        id == offers.len() + 1,
        owner_key(o, creator_side) == addr,
    ensures
        index_wf(m.insert(addr, m[addr].push(id)), offers.push(o), creator_side),
{
    let m2 = m.insert(addr, m[addr].push(id));
    let offers2 = offers.push(o);
    assert(m2.dom() =~= Set::<u64>::full());
    assert forall|a: u64| entry_valid(#[trigger] m2[a], offers2, a, creator_side) by {
        assert(entry_valid(m[a], offers, a, creator_side));
        if a == addr {
            lemma_entry_valid_push_id(m[addr], offers, addr, creator_side, o, id);
            assert(m2[a] == m[addr].push(id));
        } else {
            lemma_entry_valid_extend(m[a], offers, a, creator_side, o);
            assert(m2[a] == m[a]);
        }
    }
    assert forall|i: int|
        0 <= i < offers2.len() implies m2[owner_key(
        #[trigger] offers2[i],
        creator_side,
    )].contains((i + 1) as u64) by {
        if i < offers.len() {
            assert(offers2[i] == offers[i]);
            let key = owner_key(offers[i], creator_side);
            assert(m[key].contains((i + 1) as u64));
            if key == addr {
                lemma_push_keeps_contains(m[addr], id, (i + 1) as u64);
                assert(m2[addr] == m[addr].push(id));
            } else {
                assert(m2[key] == m[key]);
            }
        } else {
            assert(offers2[i] == o);
            assert(m2[addr][m[addr].len() as int] == id);
            assert(m2[addr].contains(id));
        }
    }
}

/// A successful `create` preserves the ledger invariant.
pub proof fn lemma_create_next_wf(
    v: StateView,
    creator: u64,
    recipient: u64,
    amount: u128,
    now: u64,
)
    requires
        state_wf(v),
        create_allowed(amount),
        v.last_offer_id < u64::MAX,
    ensures
        state_wf(create_next(v, creator, recipient, amount, now)),
{
    let v2 = create_next(v, creator, recipient, amount, now);
    let o = created_offer(v, creator, recipient, amount, now);
    let id = (v.last_offer_id + 1) as u64;
    assert forall|i: int| 0 <= i < v2.offers.len() implies (#[trigger] v2.offers[i]).offer_id == i
        + 1 by {
        if i < v.offers.len() {
            assert(v2.offers[i] == v.offers[i]);
        } else {
            assert(v2.offers[i] == o);
        }
    }
    assert forall|i: int| 0 <= i < v2.offers.len() implies (#[trigger] v2.offers[i]).amount
        > 0 by {
        if i < v.offers.len() {
            assert(v2.offers[i] == v.offers[i]);
        } else {
            assert(v2.offers[i] == o);
        }
    }
    lemma_index_insert_wf(v.offers_by_creator, v.offers, true, creator, o, id);
    lemma_index_insert_wf(v.offers_incoming, v.offers, false, recipient, o, id);
}

/// An index stays sound and complete when one stored offer's status is
/// rewritten: owners, amounts and positions are untouched.
proof fn lemma_index_update_wf(
    m: Map<u64, Seq<u64>>,
    offers: Seq<Offer>,
    creator_side: bool,
    idx: int,
    o2: Offer,
)
    requires
        index_wf(m, offers, creator_side),
        0 <= idx < offers.len(),
        o2.creator == offers[idx].creator,
        o2.recipient == offers[idx].recipient,
    ensures
        index_wf(m, offers.update(idx, o2), creator_side),
{
    let offers2 = offers.update(idx, o2);
    assert forall|i: int|
        0 <= i < offers2.len() implies owner_key(#[trigger] offers2[i], creator_side) == owner_key(
        offers[i],
        creator_side,
    ) by {
        if i != idx {
            assert(offers2[i] == offers[i]);
        }
    }
    assert forall|a: u64| entry_valid(#[trigger] m[a], offers2, a, creator_side) by {
        assert(entry_valid(m[a], offers, a, creator_side));
        assert forall|j: int| 0 <= j < m[a].len() implies 1 <= #[trigger] m[a][j] && m[a][j]
            <= offers2.len() by {
            assert(1 <= m[a][j] && m[a][j] <= offers.len());
        }
        assert forall|j: int|
            0 <= j < m[a].len() implies owner_key(offers2[#[trigger] m[a][j] - 1], creator_side)
            == a by {
            assert(1 <= m[a][j] && m[a][j] <= offers.len());
            assert(owner_key(offers[m[a][j] - 1], creator_side) == a);
        }
    }
    assert forall|i: int|
        0 <= i < offers2.len() implies m[owner_key(#[trigger] offers2[i], creator_side)].contains(
        (i + 1) as u64,
    ) by {
        assert(m[owner_key(offers[i], creator_side)].contains((i + 1) as u64));
    }
}

/// Settling one offer (rewriting only its status) preserves the ledger
/// invariant, whatever terminal status is written.
pub proof fn lemma_settle_wf(v: StateView, offer_id: u64, status: OfferStatus)
    requires
        state_wf(v),
        offer_exists(v, offer_id),
    ensures
        state_wf(
            StateView {
                offers: v.offers.update(offer_id - 1, settled_offer(offer_at(v, offer_id), status)),
                ..v
            },
        ),
{
    let idx = offer_id - 1;
    let o2 = settled_offer(offer_at(v, offer_id), status);
    let offers2 = v.offers.update(idx, o2);
    assert forall|i: int| 0 <= i < offers2.len() implies (#[trigger] offers2[i]).offer_id == i
        + 1 by {
        if i != idx {
            assert(offers2[i] == v.offers[i]);
        }
    }
    assert forall|i: int| 0 <= i < offers2.len() implies (#[trigger] offers2[i]).amount > 0 by {
        if i != idx {
            assert(offers2[i] == v.offers[i]);
        }
    }
    lemma_index_update_wf(v.offers_by_creator, v.offers, true, idx, o2);
    lemma_index_update_wf(v.offers_incoming, v.offers, false, idx, o2);
}

/// A successful `cancel` preserves the ledger invariant.
pub proof fn lemma_cancel_next_wf(v: StateView, offer_id: u64)
    requires
        state_wf(v),
        offer_exists(v, offer_id),
    ensures
        state_wf(cancel_next(v, offer_id)),
{
    lemma_settle_wf(v, offer_id, OfferStatus::Cancelled);
}

/// A successful `accept` preserves the ledger invariant.
pub proof fn lemma_accept_next_wf(v: StateView, offer_id: u64)
    requires
        state_wf(v),
        offer_exists(v, offer_id),
    ensures
        state_wf(accept_next(v, offer_id)),
{
    lemma_settle_wf(v, offer_id, OfferStatus::Completed);
}

} // verus!
