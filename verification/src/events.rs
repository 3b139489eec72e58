//! The event ledger: create, close, bet, resolve and claim operations over
//! the `Predictions` aggregate, each an atomic validate-then-mutate step that
//! preserves the accounting invariants.

use vstd::prelude::*;
use crate::mint::{
    balance_of, balances_except, balances_sum, burn_tokens, lemma_balance_of_le_sum, mint_frame,
    mint_tokens, mint_wf, spec_balance_of, TokenMintDetails,
};
use crate::types::{
    bets_of, entry_users_unique, event_ids_unique, event_wf, has_bets_entry, has_event, id_eq,
    lemma_bets_of_absent, lemma_bets_of_at_index, lemma_bets_of_push, lemma_bets_of_update,
    lemma_outcome_total_sum_bound, lemma_outcome_total_sum_push, lemma_outcome_total_sum_update,
    lemma_pool_total_bound, lemma_pool_total_push, lemma_pool_total_update, outcome_total_sum,
    pool_total, predictions_wf, spec_find_event, Bet, BetsEntry, BetType, EventStatus, Outcome,
    PredictionEvent, PredictionMarketError, Predictions, Pubkey,
};

verus! {

/// The two ledgers agree: no more value is at stake in pools and held in
/// balances than is circulating.  This is what keeps every pool credit within
/// `u64` bounds.
pub open spec fn books_balanced(p: Predictions, t: TokenMintDetails) -> bool {
    pool_total(p.predictions@) + balances_sum(t.balances@) <= t.circulating_supply
}

/// Error decision of `create_event`: which error a call returns, `None` when
/// it succeeds.
pub open spec fn create_decision(
    p: Predictions,
    creator_is_signer: bool,
    unique_id: Seq<u8>,
) -> Option<PredictionMarketError> {
    if !creator_is_signer {
        Some(PredictionMarketError::Unauthorized)
    } else if has_event(p.predictions@, unique_id) {
        Some(PredictionMarketError::DuplicateEvent)
    } else if p.predictions@.len() >= u32::MAX {
        Some(PredictionMarketError::EncodeError)
    } else {
        None
    }
}

/// Error decision of `close_event`.
pub open spec fn close_decision(
    p: Predictions,
    unique_id: Seq<u8>,
    caller: Seq<u8>,
) -> Option<PredictionMarketError> {
    match spec_find_event(p.predictions@, unique_id) {
        None => Some(PredictionMarketError::EventNotFound),
        Some(i) => {
            let e = p.predictions@[i];
            if e.creator@ != caller {
                Some(PredictionMarketError::Unauthorized)
            } else if !(e.status is Active) {
                Some(PredictionMarketError::EventNotActive)
            } else {
                None
            }
        },
    }
}

/// Error decision of `resolve_event`.
pub open spec fn resolve_decision(
    p: Predictions,
    unique_id: Seq<u8>,
    winning_outcome: u8,
    resolver: Seq<u8>,
) -> Option<PredictionMarketError> {
    match spec_find_event(p.predictions@, unique_id) {
        None => Some(PredictionMarketError::EventNotFound),
        Some(i) => {
            let e = p.predictions@[i];
            if e.creator@ != resolver {
                Some(PredictionMarketError::Unauthorized)
            } else if !(e.status is Active) {
                Some(PredictionMarketError::EventAlreadyResolved)
            } else if winning_outcome as int >= e.outcomes@.len() {
                Some(PredictionMarketError::InvalidOutcome)
            } else {
                None
            }
        },
    }
}

/// `spec_find_event` returns an index that carries the id; `None` means the
/// id is absent.
pub proof fn lemma_spec_find_event(events: Seq<PredictionEvent>, unique_id: Seq<u8>)
    ensures
        match spec_find_event(events, unique_id) {
            Some(i) => 0 <= i < events.len() && events[i].unique_id@ == unique_id,
            None => !has_event(events, unique_id),
        },
    decreases events.len(),
{
    if events.len() > 0 {
        if events[0].unique_id@ == unique_id {
        } else {
            lemma_spec_find_event(events.drop_first(), unique_id);
            assert(forall|j: int|
                0 <= j < events.drop_first().len() ==> (#[trigger] events.drop_first()[j])
                    == events[j + 1]);
            if spec_find_event(events.drop_first(), unique_id) is None {
                if has_event(events, unique_id) {
                    let i = choose|i: int|
                        0 <= i < events.len() && events[i].unique_id@ == unique_id;
                    assert(events.drop_first()[i - 1].unique_id@ == unique_id);
                }
            }
        }
    }
}

/// Find the index of the event carrying `unique_id`.
pub fn find_event_index(events: &Vec<PredictionEvent>, unique_id: &[u8; 32]) -> (r: Option<usize>)
    ensures
        match r {
            Some(i) => {
                &&& spec_find_event(events@, unique_id@) == Some(i as int)
                &&& i < events@.len()
                &&& events@[i as int].unique_id@ == unique_id@
            },
            None => {
                &&& spec_find_event(events@, unique_id@) is None
                &&& !has_event(events@, unique_id@)
            },
        },
{
    proof {
        lemma_spec_find_event(events@, unique_id@);
        assert(events@.skip(0) =~= events@);
    }
    let n = events.len();
    let mut i: usize = 0;
    while i < n
        invariant
            0 <= i <= n,
            n == events@.len(),
            forall|k: int| 0 <= k < i ==> events@[k].unique_id@ != unique_id@,
            spec_find_event(events@, unique_id@) == match spec_find_event(
                events@.skip(i as int),
                unique_id@,
            ) {
                Some(j) => Some(j + i),
                None => None::<int>,
            },
        decreases n - i,
    {
        proof {
            assert(events@.skip(i as int)[0] == events@[i as int]);
            assert(events@.skip(i as int).drop_first() =~= events@.skip(i + 1));
        }
        if crate::types::id_eq(&events[i].unique_id, unique_id) {
            return Some(i);
        }
        i += 1;
    }
    proof {
        assert(events@.skip(n as int) =~= Seq::<PredictionEvent>::empty());
    }
    None
}

/// The state relation of a successful `create_event`: the aggregate has
/// exactly one new event, appended at the end, `Active`, with an empty pool
/// spread over `num_outcomes` zero-balance outcomes.
pub open spec fn create_event_success(
    p0: Predictions,
    p1: Predictions,
    creator: Seq<u8>,
    unique_id: Seq<u8>,
    expiry_timestamp: u64,
    num_outcomes: u8,
) -> bool {
    &&& p1.predictions@.len() == p0.predictions@.len() + 1
    &&& p1.predictions@.drop_last() =~= p0.predictions@
    &&& p1.total_predictions == p0.total_predictions + 1
    &&& ({
        let e = p1.predictions@.last();
        &&& e.unique_id@ == unique_id
        &&& e.creator@ == creator
        &&& e.expiry_timestamp == expiry_timestamp
        &&& e.total_pool_amount == 0
        &&& e.status is Active
        &&& e.winning_outcome is None
        &&& e.outcomes@.len() == num_outcomes as int
        &&& forall|k: int|
            0 <= k < num_outcomes as int ==> {
                let o = #[trigger] e.outcomes@[k];
                &&& o.id as int == k
                &&& o.total_amount == 0
                &&& o.bets@.len() == 0
            }
    })
}

/// Append a new `Active` event with `num_outcomes` zero-balance outcomes.
/// Requires the caller to be the authenticated signer (`Unauthorized`) and
/// the id to be fresh (`DuplicateEvent`); an aggregate whose event counter
/// is exhausted can no longer be re-encoded (`EncodeError`).  On failure
/// nothing changes.
pub fn create_event(
    p: &mut Predictions,
    creator: &Pubkey,
    creator_is_signer: bool,
    unique_id: &[u8; 32],
    expiry_timestamp: u64,
    num_outcomes: u8,
) -> (r: Result<(), PredictionMarketError>)
    requires
        predictions_wf(*old(p)),
    ensures
        predictions_wf(*final(p)),
        match create_decision(*old(p), creator_is_signer, unique_id@) {
            Some(e) => r == Err::<(), PredictionMarketError>(e) && *final(p) == *old(p),
            None => {
                &&& r == Ok::<(), PredictionMarketError>(())
                &&& create_event_success(
                    *old(p),
                    *final(p),
                    creator@,
                    unique_id@,
                    expiry_timestamp,
                    num_outcomes,
                )
            },
        },
        pool_total(final(p).predictions@) == pool_total(old(p).predictions@),
{
    if !creator_is_signer {
        return Err(PredictionMarketError::Unauthorized);
    }
    match find_event_index(&p.predictions, unique_id) {
        Some(_) => Err(PredictionMarketError::DuplicateEvent),
        None => {
            if p.total_predictions == u32::MAX {
                return Err(PredictionMarketError::EncodeError);
            }
            let mut outcomes: Vec<Outcome> = Vec::new();
            let mut i: usize = 0;
            let n = num_outcomes as usize;
            while i < n
                invariant
                    0 <= i <= n,
                    n <= 255,
                    outcomes@.len() == i,
                    outcome_total_sum(outcomes@) == 0,
                    forall|k: int|
                        0 <= k < i ==> {
                            let o = #[trigger] outcomes@[k];
                            &&& o.id as int == k
                            &&& o.total_amount == 0
                            &&& o.bets@.len() == 0
                        },
                decreases n - i,
            {
                let o = Outcome { id: i as u8, total_amount: 0, bets: Vec::new() };
                proof {
                    lemma_outcome_total_sum_push(outcomes@, o);
                }
                outcomes.push(o);
                i += 1;
            }
            let event = PredictionEvent {
                unique_id: *unique_id,
                creator: *creator,
                expiry_timestamp,
                outcomes,
                total_pool_amount: 0,
                status: EventStatus::Active,
                winning_outcome: None,
            };
            proof {
                lemma_pool_total_push(p.predictions@, event);
            }
            p.predictions.push(event);
            p.total_predictions = p.total_predictions + 1;
            proof {
                assert(final(p).predictions@.drop_last() =~= old(p).predictions@);
                assert(event_ids_unique(p.predictions@)) by {
                    assert(forall|k: int|
                        0 <= k < old(p).predictions@.len() ==> (#[trigger] p.predictions@[k])
                            == old(p).predictions@[k]);
                }
                assert(forall|k: int|
                    0 <= k < old(p).predictions@.len() ==> event_wf(#[trigger] p.predictions@[k]));
                assert(event_wf(p.predictions@.last()));
            }
            Ok(())
        },
    }
}

/// The state relation of a successful `close_event`: the found event is
/// marked `Closed` in place; everything else is untouched.
pub open spec fn close_event_success(p0: Predictions, p1: Predictions, unique_id: Seq<u8>) -> bool {
    let i = spec_find_event(p0.predictions@, unique_id)->0;
    &&& p1.predictions@ =~= p0.predictions@.update(
        i,
        (PredictionEvent { status: EventStatus::Closed, ..p0.predictions@[i] }),
    )
    &&& p1.total_predictions == p0.total_predictions
}

/// Mark the event `unique_id` `Closed`: an administrative terminal
/// transition, allowed only to the creator and only while the event is still
/// `Active`.
pub fn close_event(p: &mut Predictions, unique_id: &[u8; 32], caller: &Pubkey) -> (r: Result<
    (),
    PredictionMarketError,
>)
    requires
        predictions_wf(*old(p)),
    ensures
        predictions_wf(*final(p)),
        match close_decision(*old(p), unique_id@, caller@) {
            Some(e) => r == Err::<(), PredictionMarketError>(e) && *final(p) == *old(p),
            None => {
                &&& r == Ok::<(), PredictionMarketError>(())
                &&& close_event_success(*old(p), *final(p), unique_id@)
            },
        },
        pool_total(final(p).predictions@) == pool_total(old(p).predictions@),
{
    match find_event_index(&p.predictions, unique_id) {
        None => Err(PredictionMarketError::EventNotFound),
        Some(i) => {
            if !id_eq(&p.predictions[i].creator, caller) {
                return Err(PredictionMarketError::Unauthorized);
            }
            if !matches!(p.predictions[i].status, EventStatus::Active) {
                return Err(PredictionMarketError::EventNotActive);
            }
            let mut ev = p.predictions.remove(i);
            ev.status = EventStatus::Closed;
            let ghost ev_new = ev;
            p.predictions.insert(i, ev);
            proof {
                assert(p.predictions@ =~= old(p).predictions@.update(i as int, ev_new));
                lemma_pool_total_update(old(p).predictions@, i as int, ev_new);
                assert(predictions_wf(*p)) by {
                    assert(forall|k: int|
                        0 <= k < p.predictions@.len() && k != i ==> (#[trigger] p.predictions@[k])
                            == old(p).predictions@[k]);
                    assert(event_wf(p.predictions@[i as int]));
                    assert(forall|k: int, j: int|
                        0 <= k < j < p.predictions@.len() ==> p.predictions@[k].unique_id@
                            != p.predictions@[j].unique_id@) by {
                        assert(forall|k: int|
                            0 <= k < p.predictions@.len() ==> (#[trigger] p.predictions@[k]).unique_id@
                                == old(p).predictions@[k].unique_id@);
                    }
                }
            }
            Ok(())
        },
    }
}

/// Find the index of the per-bettor history row of `user`.
fn find_bets_entry_index(entries: &Vec<BetsEntry>, user: &Pubkey) -> (r: Option<usize>)
    requires
        entry_users_unique(entries@),
    ensures
        match r {
            Some(i) => i < entries@.len() && entries@[i as int].user@ == user@,
            None => !has_bets_entry(entries@, user@),
        },
{
    let n = entries.len();
    let mut i: usize = 0;
    while i < n
        invariant
            0 <= i <= n,
            n == entries@.len(),
            forall|k: int| 0 <= k < i ==> entries@[k].user@ != user@,
        decreases n - i,
    {
        if id_eq(&entries[i].user, user) {
            return Some(i);
        }
        i += 1;
    }
    None
}

/// Append `bet` to the history of `user`, keeping the ordered map's key
/// uniqueness and every other user's history.
fn push_bet(entries: &mut Vec<BetsEntry>, user: &Pubkey, bet: Bet)
    requires
        entry_users_unique(old(entries)@),
    ensures
        entry_users_unique(final(entries)@),
        bets_of(final(entries)@, user@) == bets_of(old(entries)@, user@).push(bet),
        forall|u: Seq<u8>|
            u != user@ ==> #[trigger] bets_of(final(entries)@, u) == bets_of(old(entries)@, u),
{
    match find_bets_entry_index(entries, user) {
        Some(i) => {
            let mut en = entries.remove(i);
            proof {
                lemma_bets_of_at_index(old(entries)@, i as int);
            }
            en.bets.push(bet);
            let ghost en_new = en;
            entries.insert(i, en);
            proof {
                assert(entries@ =~= old(entries)@.update(i as int, en_new));
                lemma_bets_of_at_index(entries@, i as int);
                assert forall|u: Seq<u8>| u != user@ implies #[trigger] bets_of(entries@, u)
                    == bets_of(old(entries)@, u) by {
                    lemma_bets_of_update(old(entries)@, i as int, en_new, u);
                }
                assert(entry_users_unique(entries@)) by {
                    assert(forall|k: int|
                        0 <= k < entries@.len() ==> (#[trigger] entries@[k]).user@
                            == old(entries)@[k].user@);
                }
            }
        },
        None => {
            proof {
                lemma_bets_of_absent(entries@, user@);
            }
            let mut bets: Vec<Bet> = Vec::new();
            bets.push(bet);
            let en = BetsEntry { user: *user, bets };
            let ghost en_new = en;
            entries.push(en);
            proof {
                assert(en_new.bets@ =~= Seq::<Bet>::empty().push(bet));
                assert forall|u: Seq<u8>| u != user@ implies #[trigger] bets_of(entries@, u)
                    == bets_of(old(entries)@, u) by {
                    lemma_bets_of_push(old(entries)@, en_new, u);
                }
                lemma_bets_of_push(old(entries)@, en_new, user@);
                assert(entry_users_unique(entries@)) by {
                    assert(forall|k: int|
                        0 <= k < old(entries)@.len() ==> (#[trigger] entries@[k])
                            == old(entries)@[k]);
                }
            }
        },
    }
}

/// Error decision of `place_bet`.
pub open spec fn place_bet_decision(
    p: Predictions,
    t: TokenMintDetails,
    unique_id: Seq<u8>,
    outcome_id: u8,
    amount: u64,
    bettor: Seq<u8>,
    side: BetType,
) -> Option<PredictionMarketError> {
    match spec_find_event(p.predictions@, unique_id) {
        None => Some(PredictionMarketError::EventNotFound),
        Some(i) => {
            let e = p.predictions@[i];
            if !(e.status is Active) {
                Some(PredictionMarketError::EventNotActive)
            } else if outcome_id as int >= e.outcomes@.len() {
                Some(PredictionMarketError::InvalidOutcome)
            } else {
                match side {
                    BetType::BUY => if spec_balance_of(t.balances@, bettor) < amount {
                        Some(PredictionMarketError::InsufficientFunds)
                    } else {
                        None
                    },
                    BetType::SELL => if amount > e.outcomes@[outcome_id as int].total_amount {
                        Some(PredictionMarketError::InvalidOutcome)
                    } else if t.circulating_supply + amount > t.supply {
                        Some(PredictionMarketError::SupplyExceeded)
                    } else {
                        None
                    },
                }
            }
        },
    }
}

/// The state relation of a successful `place_bet`: the found event gains
/// the bet in the bettor's history on the chosen outcome, its pool and that
/// outcome's total move by the stake, and the token ledger settles the same
/// amount against the bettor's balance — burned on a `BUY`, minted on a
/// `SELL`.  Nothing else changes.
pub open spec fn place_bet_success(
    p0: Predictions,
    t0: TokenMintDetails,
    p1: Predictions,
    t1: TokenMintDetails,
    unique_id: Seq<u8>,
    outcome_id: u8,
    amount: u64,
    bettor: Pubkey,
    side: BetType,
    timestamp: u64,
) -> bool {
    let i = spec_find_event(p0.predictions@, unique_id)->0;
    let e0 = p0.predictions@[i];
    let e1 = p1.predictions@[i];
    let o0 = e0.outcomes@[outcome_id as int];
    let o1 = e1.outcomes@[outcome_id as int];
    &&& p1.total_predictions == p0.total_predictions
    &&& p1.predictions@.len() == p0.predictions@.len()
    &&& (forall|j: int|
        0 <= j < p0.predictions@.len() && j != i ==> (#[trigger] p1.predictions@[j])
            == p0.predictions@[j])
    &&& e1.unique_id@ == e0.unique_id@
    &&& e1.creator@ == e0.creator@
    &&& e1.expiry_timestamp == e0.expiry_timestamp
    &&& e1.status == e0.status
    &&& e1.winning_outcome == e0.winning_outcome
    &&& e1.outcomes@.len() == e0.outcomes@.len()
    &&& (forall|k: int|
        0 <= k < e0.outcomes@.len() && k != outcome_id as int ==> (#[trigger] e1.outcomes@[k])
            == e0.outcomes@[k])
    &&& o1.id == o0.id
    &&& bets_of(o1.bets@, bettor@) == bets_of(o0.bets@, bettor@).push(
        (Bet {
            user: bettor,
            event_id: e0.unique_id,
            outcome_id,
            amount,
            timestamp,
            bet_type: side,
            claimed: false,
        }),
    )
    &&& (forall|u: Seq<u8>|
        u != bettor@ ==> #[trigger] bets_of(o1.bets@, u) == bets_of(o0.bets@, u))
    &&& (side is BUY ==> {
        &&& e1.total_pool_amount == e0.total_pool_amount + amount
        &&& o1.total_amount == o0.total_amount + amount
        &&& spec_balance_of(t1.balances@, bettor@) == spec_balance_of(t0.balances@, bettor@)
            - amount
        &&& t1.circulating_supply == t0.circulating_supply
    })
    &&& (side is SELL ==> {
        &&& e1.total_pool_amount == e0.total_pool_amount - amount
        &&& o1.total_amount == o0.total_amount - amount
        &&& spec_balance_of(t1.balances@, bettor@) == spec_balance_of(t0.balances@, bettor@)
            + amount
        &&& t1.circulating_supply == t0.circulating_supply + amount
    })
    &&& balances_except(t0.balances@, t1.balances@, bettor@)
    &&& mint_frame(t0, t1)
}

/// Place a wager of `amount` on outcome `outcome_id` of event `unique_id`.
/// A `BUY` burns the stake from the bettor's token balance and credits the
/// outcome and the pool; a `SELL` debits the outcome and the pool and mints
/// the amount back to the bettor.  All validation precedes any mutation, so a
/// failing call changes nothing.
pub fn place_bet(
    p: &mut Predictions,
    t: &mut TokenMintDetails,
    unique_id: &[u8; 32],
    outcome_id: u8,
    amount: u64,
    bettor: &Pubkey,
    side: BetType,
    timestamp: u64,
) -> (r: Result<(), PredictionMarketError>)
    requires
        predictions_wf(*old(p)),
        mint_wf(*old(t)),
        books_balanced(*old(p), *old(t)),
    ensures
        predictions_wf(*final(p)),
        mint_wf(*final(t)),
        books_balanced(*final(p), *final(t)),
        mint_frame(*old(t), *final(t)),
        final(p).total_predictions == old(p).total_predictions,
        match place_bet_decision(*old(p), *old(t), unique_id@, outcome_id, amount, bettor@, side) {
            Some(e) => {
                &&& r == Err::<(), PredictionMarketError>(e)
                &&& *final(p) == *old(p)
                &&& *final(t) == *old(t)
            },
            None => {
                &&& r == Ok::<(), PredictionMarketError>(())
                &&& place_bet_success(
                    *old(p),
                    *old(t),
                    *final(p),
                    *final(t),
                    unique_id@,
                    outcome_id,
                    amount,
                    *bettor,
                    side,
                    timestamp,
                )
            },
        },
{
    let idx = match find_event_index(&p.predictions, unique_id) {
        None => {
            return Err(PredictionMarketError::EventNotFound);
        },
        Some(i) => i,
    };
    if !matches!(p.predictions[idx].status, EventStatus::Active) {
        return Err(PredictionMarketError::EventNotActive);
    }
    let oid = outcome_id as usize;
    if oid >= p.predictions[idx].outcomes.len() {
        return Err(PredictionMarketError::InvalidOutcome);
    }
    proof {
        lemma_pool_total_bound(p.predictions@, idx as int);
        lemma_balance_of_le_sum(t.balances@, bettor@);
        lemma_outcome_total_sum_bound(p.predictions@[idx as int].outcomes@, oid as int);
    }
    match side {
        BetType::BUY => {
            if balance_of(t, bettor) < amount {
                return Err(PredictionMarketError::InsufficientFunds);
            }
        },
        BetType::SELL => {
            if amount > p.predictions[idx].outcomes[oid].total_amount {
                return Err(PredictionMarketError::InvalidOutcome);
            }
            if amount > t.supply - t.circulating_supply {
                return Err(PredictionMarketError::SupplyExceeded);
            }
        },
    }
    let mut ev = p.predictions.remove(idx);
    let ghost e0 = ev;
    let mut oc = ev.outcomes.remove(oid);
    let ghost o0 = oc;
    let bet = Bet {
        user: *bettor,
        event_id: ev.unique_id,
        outcome_id,
        amount,
        timestamp,
        bet_type: side,
        claimed: false,
    };
    push_bet(&mut oc.bets, bettor, bet);
    let settle = match side {
        BetType::BUY => {
            oc.total_amount = oc.total_amount + amount;
            ev.total_pool_amount = ev.total_pool_amount + amount;
            burn_tokens(t, bettor, amount)
        },
        BetType::SELL => {
            oc.total_amount = oc.total_amount - amount;
            ev.total_pool_amount = ev.total_pool_amount - amount;
            mint_tokens(t, bettor, amount)
        },
    };
    proof {
        assert(settle == Ok::<(), PredictionMarketError>(()));
    }
    let ghost oc_new = oc;
    ev.outcomes.insert(oid, oc);
    let ghost ev_new = ev;
    p.predictions.insert(idx, ev);
    proof {
        assert(ev_new.outcomes@ =~= e0.outcomes@.update(oid as int, oc_new));
        assert(p.predictions@ =~= old(p).predictions@.update(idx as int, ev_new));
        lemma_outcome_total_sum_update(e0.outcomes@, oid as int, oc_new);
        lemma_pool_total_update(old(p).predictions@, idx as int, ev_new);
        assert(event_wf(ev_new)) by {
            assert(forall|k: int|
                0 <= k < e0.outcomes@.len() && k != oid as int ==> (#[trigger] ev_new.outcomes@[k])
                    == e0.outcomes@[k]);
        }
        assert(predictions_wf(*p)) by {
            assert(forall|k: int|
                0 <= k < p.predictions@.len() && k != idx as int ==> (#[trigger] p.predictions@[k])
                    == old(p).predictions@[k]);
            assert(forall|k: int, j: int|
                0 <= k < j < p.predictions@.len() ==> p.predictions@[k].unique_id@
                    != p.predictions@[j].unique_id@) by {
                assert(forall|k: int|
                    0 <= k < p.predictions@.len() ==> (#[trigger] p.predictions@[k]).unique_id@
                        == old(p).predictions@[k].unique_id@);
            }
        }
    }
    Ok(())
}

/// The state relation of a successful `resolve_event`: the found event is
/// marked `Resolved` with its winning outcome recorded, in place.
pub open spec fn resolve_event_success(
    p0: Predictions,
    p1: Predictions,
    unique_id: Seq<u8>,
    winning_outcome: u8,
) -> bool {
    let i = spec_find_event(p0.predictions@, unique_id)->0;
    &&& p1.predictions@ =~= p0.predictions@.update(
        i,
        (PredictionEvent {
            status: EventStatus::Resolved,
            winning_outcome: Some(winning_outcome),
            ..p0.predictions@[i]
        }),
    )
    &&& p1.total_predictions == p0.total_predictions
}

/// Resolve the event `unique_id` with `winning_outcome`: the terminal
/// transition that fixes the payout basis.  Allowed only to the creator, only
/// once, and only with a valid outcome id.
pub fn resolve_event(
    p: &mut Predictions,
    unique_id: &[u8; 32],
    winning_outcome: u8,
    resolver: &Pubkey,
) -> (r: Result<(), PredictionMarketError>)
    requires
        predictions_wf(*old(p)),
    ensures
        predictions_wf(*final(p)),
        match resolve_decision(*old(p), unique_id@, winning_outcome, resolver@) {
            Some(e) => r == Err::<(), PredictionMarketError>(e) && *final(p) == *old(p),
            None => {
                &&& r == Ok::<(), PredictionMarketError>(())
                &&& resolve_event_success(*old(p), *final(p), unique_id@, winning_outcome)
            },
        },
        pool_total(final(p).predictions@) == pool_total(old(p).predictions@),
{
    match find_event_index(&p.predictions, unique_id) {
        None => Err(PredictionMarketError::EventNotFound),
        Some(i) => {
            if !id_eq(&p.predictions[i].creator, resolver) {
                return Err(PredictionMarketError::Unauthorized);
            }
            if !matches!(p.predictions[i].status, EventStatus::Active) {
                return Err(PredictionMarketError::EventAlreadyResolved);
            }
            if winning_outcome as usize >= p.predictions[i].outcomes.len() {
                return Err(PredictionMarketError::InvalidOutcome);
            }
            let mut ev = p.predictions.remove(i);
            ev.status = EventStatus::Resolved;
            ev.winning_outcome = Some(winning_outcome);
            let ghost ev_new = ev;
            p.predictions.insert(i, ev);
            proof {
                assert(p.predictions@ =~= old(p).predictions@.update(i as int, ev_new));
                lemma_pool_total_update(old(p).predictions@, i as int, ev_new);
                assert(predictions_wf(*p)) by {
                    assert(forall|k: int|
                        0 <= k < p.predictions@.len() && k != i ==> (#[trigger] p.predictions@[k])
                            == old(p).predictions@[k]);
                    assert(event_wf(p.predictions@[i as int]));
                    assert(forall|k: int, j: int|
                        0 <= k < j < p.predictions@.len() ==> p.predictions@[k].unique_id@
                            != p.predictions@[j].unique_id@) by {
                        assert(forall|k: int|
                            0 <= k < p.predictions@.len() ==> (#[trigger] p.predictions@[k]).unique_id@
                                == old(p).predictions@[k].unique_id@);
                    }
                }
            }
            Ok(())
        },
    }
}

/// Stake of a wager history that is still owed a payout: the amounts of its
/// `BUY` bets not yet claimed.
pub open spec fn unclaimed_buy_stake(bets: Seq<Bet>) -> int
    decreases bets.len(),
{
    if bets.len() == 0 {
        0
    } else {
        unclaimed_buy_stake(bets.drop_last()) + if bets.last().bet_type is BUY
            && !bets.last().claimed {
            bets.last().amount as int
        } else {
            0
        }
    }
}

/// Stake a wager history has sold back: the amounts of its `SELL` bets.
pub open spec fn sell_stake(bets: Seq<Bet>) -> int
    decreases bets.len(),
{
    if bets.len() == 0 {
        0
    } else {
        sell_stake(bets.drop_last()) + if bets.last().bet_type is SELL {
            bets.last().amount as int
        } else {
            0
        }
    }
}

pub proof fn lemma_sell_stake_nonneg(bets: Seq<Bet>)
    ensures
        sell_stake(bets) >= 0,
    decreases bets.len(),
{
    if bets.len() > 0 {
        lemma_sell_stake_nonneg(bets.drop_last());
    }
}

/// The effective winning stake of one claimant: its unclaimed `BUY` amounts
/// net of everything it sold back, and never more than the winning outcome
/// still holds — so no claim can draw on stake that no longer exists.
pub open spec fn claimant_stake(bets: Seq<Bet>, wt: int) -> int {
    let net = unclaimed_buy_stake(bets) - sell_stake(bets);
    if net <= 0 {
        0
    } else if net > wt {
        wt
    } else {
        net
    }
}

/// A bet after settlement: `BUY` bets are marked claimed, `SELL` bets are
/// left alone.
pub open spec fn mark_bet(b: Bet) -> Bet {
    if b.bet_type is BUY {
        Bet { claimed: true, ..b }
    } else {
        b
    }
}

/// A whole history after settlement.
pub open spec fn mark_claimed(bets: Seq<Bet>) -> Seq<Bet> {
    Seq::new(bets.len(), |i: int| mark_bet(bets[i]))
}

/// Settling a history leaves nothing further to claim.
pub proof fn lemma_mark_claimed_exhausts(bets: Seq<Bet>)
    ensures
        unclaimed_buy_stake(mark_claimed(bets)) == 0,
    decreases bets.len(),
{
    if bets.len() > 0 {
        assert(mark_claimed(bets).drop_last() =~= mark_claimed(bets.drop_last()));
        lemma_mark_claimed_exhausts(bets.drop_last());
    }
}

/// Floor of `stake * pool / wt`, the proportional payout formula; zero when
/// the winning outcome holds no stake at all.
pub open spec fn spec_payout(stake: int, pool: int, wt: int) -> int {
    if wt == 0 {
        0
    } else {
        stake * pool / wt
    }
}

/// The payout owed to `claimant` by the resolved event `e`: its effective
/// winning stake, scaled to its proportional share of the whole pool.
/// Because the effective stake never exceeds the winning outcome's total,
/// the payout never exceeds the pool.
pub open spec fn claim_payout(e: PredictionEvent, claimant: Seq<u8>) -> int {
    let o = e.outcomes@[e.winning_outcome->0 as int];
    spec_payout(
        claimant_stake(bets_of(o.bets@, claimant), o.total_amount as int),
        e.total_pool_amount as int,
        o.total_amount as int,
    )
}

/// Error decision of `claim_winnings`.
pub open spec fn claim_decision(
    p: Predictions,
    t: TokenMintDetails,
    unique_id: Seq<u8>,
    claimant: Seq<u8>,
) -> Option<PredictionMarketError> {
    match spec_find_event(p.predictions@, unique_id) {
        None => Some(PredictionMarketError::EventNotFound),
        Some(i) => {
            let e = p.predictions@[i];
            if !(e.status is Resolved) {
                Some(PredictionMarketError::EventNotResolved)
            } else if t.circulating_supply + claim_payout(e, claimant) > t.supply {
                Some(PredictionMarketError::SupplyExceeded)
            } else {
                None
            }
        },
    }
}

/// Sum the unclaimed `BUY` amounts and the `SELL` amounts of one history.
fn compute_stakes(bets: &Vec<Bet>) -> (r: (u128, u128))
    ensures
        r.0 as int == unclaimed_buy_stake(bets@),
        r.1 as int == sell_stake(bets@),
{
    let n = bets.len();
    let mut bought: u128 = 0;
    let mut sold: u128 = 0;
    let mut j: usize = 0;
    proof {
        assert(bets@.take(0) =~= Seq::<Bet>::empty());
    }
    while j < n
        invariant
            0 <= j <= n,
            n == bets@.len(),
            bought as int == unclaimed_buy_stake(bets@.take(j as int)),
            bought as int <= (j as int) * (u64::MAX as int),
            sold as int == sell_stake(bets@.take(j as int)),
            sold as int <= (j as int) * (u64::MAX as int),
        decreases n - j,
    {
        let b = bets[j];
        proof {
            assert(bets@.take(j + 1).drop_last() =~= bets@.take(j as int));
            assert(bets@.take(j + 1).last() == bets@[j as int]);
            vstd::arithmetic::mul::lemma_mul_inequality(
                j as int,
                u64::MAX as int,
                u64::MAX as int,
            );
        }
        match b.bet_type {
            BetType::BUY => {
                if !b.claimed {
                    bought = bought + b.amount as u128;
                }
            },
            BetType::SELL => {
                sold = sold + b.amount as u128;
            },
        }
        j += 1;
    }
    proof {
        assert(bets@.take(n as int) =~= bets@);
    }
    (bought, sold)
}

/// Compute `floor(stake * pool / wt)` exactly.  With the stake bounded by
/// the winning total, the payout is bounded by the pool.
fn payout_amount(stake: u64, pool: u64, wt: u64) -> (r: u64)
    requires
        stake <= wt,
    ensures
        r as int == spec_payout(stake as int, pool as int, wt as int),
        r <= pool,
{
    if wt == 0 {
        return 0;
    }
    proof {
        vstd::arithmetic::mul::lemma_mul_upper_bound(
            stake as int,
            u64::MAX as int,
            pool as int,
            u64::MAX as int,
        );
        vstd::arithmetic::mul::lemma_mul_inequality(stake as int, wt as int, pool as int);
        vstd::arithmetic::div_mod::lemma_multiply_divide_le(
            stake as int * pool as int,
            wt as int,
            pool as int,
        );
        vstd::arithmetic::div_mod::lemma_div_pos_is_pos(stake as int * pool as int, wt as int);
    }
    let res = (stake as u128) * (pool as u128) / (wt as u128);
    res as u64
}

/// Mark every `BUY` bet of a history claimed.
fn mark_bets_claimed(bets: &mut Vec<Bet>)
    ensures
        final(bets)@ == mark_claimed(old(bets)@),
{
    let n = bets.len();
    let mut j: usize = 0;
    while j < n
        invariant
            0 <= j <= n,
            n == bets@.len(),
            bets@.len() == old(bets)@.len(),
            forall|k: int| 0 <= k < j ==> bets@[k] == mark_bet(old(bets)@[k]),
            forall|k: int| j <= k < n ==> bets@[k] == old(bets)@[k],
        decreases n - j,
    {
        let b = bets[j];
        if matches!(b.bet_type, BetType::BUY) {
            bets[j] = Bet { claimed: true, ..b };
        }
        j += 1;
    }
    proof {
        assert(bets@ =~= mark_claimed(old(bets)@));
    }
}

/// The state relation of a successful `claim_winnings`: the claimant's
/// history on the winning outcome is marked claimed, and the owed payout is
/// minted to its balance; pools and outcome totals stay as resolution fixed
/// them.
pub open spec fn claim_winnings_success(
    p0: Predictions,
    t0: TokenMintDetails,
    p1: Predictions,
    t1: TokenMintDetails,
    unique_id: Seq<u8>,
    claimant: Seq<u8>,
) -> bool {
    let i = spec_find_event(p0.predictions@, unique_id)->0;
    let e0 = p0.predictions@[i];
    let e1 = p1.predictions@[i];
    let w = e0.winning_outcome->0 as int;
    let o0 = e0.outcomes@[w];
    let o1 = e1.outcomes@[w];
    let payout = claim_payout(e0, claimant);
    &&& p1.total_predictions == p0.total_predictions
    &&& p1.predictions@.len() == p0.predictions@.len()
    &&& (forall|j: int|
        0 <= j < p0.predictions@.len() && j != i ==> (#[trigger] p1.predictions@[j])
            == p0.predictions@[j])
    &&& e1.unique_id@ == e0.unique_id@
    &&& e1.creator@ == e0.creator@
    &&& e1.expiry_timestamp == e0.expiry_timestamp
    &&& e1.status == e0.status
    &&& e1.winning_outcome == e0.winning_outcome
    &&& e1.total_pool_amount == e0.total_pool_amount
    &&& e1.outcomes@.len() == e0.outcomes@.len()
    &&& (forall|k: int|
        0 <= k < e0.outcomes@.len() && k != w ==> (#[trigger] e1.outcomes@[k]) == e0.outcomes@[k])
    &&& o1.id == o0.id
    &&& o1.total_amount == o0.total_amount
    &&& bets_of(o1.bets@, claimant) == mark_claimed(bets_of(o0.bets@, claimant))
    &&& (forall|u: Seq<u8>| u != claimant ==> #[trigger] bets_of(o1.bets@, u) == bets_of(o0.bets@, u))
    &&& spec_balance_of(t1.balances@, claimant) == spec_balance_of(t0.balances@, claimant) + payout
    &&& balances_except(t0.balances@, t1.balances@, claimant)
    &&& t1.circulating_supply == t0.circulating_supply + payout
    &&& mint_frame(t0, t1)
}

/// Pay `claimant` its share of the pool of the resolved event `unique_id`:
/// `floor(stake * pool / winning_total)`, credited through the token ledger.
/// The stake is the claimant's unclaimed winning `BUY` amounts net of what
/// it sold back, and never more than the winning total — so a payout can
/// never exceed the pool.  Every paid bet is marked claimed, so a repeat
/// call is owed nothing further.
pub fn claim_winnings(
    p: &mut Predictions,
    t: &mut TokenMintDetails,
    unique_id: &[u8; 32],
    claimant: &Pubkey,
) -> (r: Result<u64, PredictionMarketError>)
    requires
        predictions_wf(*old(p)),
        mint_wf(*old(t)),
        books_balanced(*old(p), *old(t)),
    ensures
        predictions_wf(*final(p)),
        mint_wf(*final(t)),
        books_balanced(*final(p), *final(t)),
        mint_frame(*old(t), *final(t)),
        final(p).total_predictions == old(p).total_predictions,
        match claim_decision(*old(p), *old(t), unique_id@, claimant@) {
            Some(e) => {
                &&& r == Err::<u64, PredictionMarketError>(e)
                &&& *final(p) == *old(p)
                &&& *final(t) == *old(t)
            },
            None => {
                &&& r == Ok::<u64, PredictionMarketError>(
                    (claim_payout(
                        old(p).predictions@[spec_find_event(old(p).predictions@, unique_id@)->0],
                        claimant@,
                    ) as u64),
                )
                &&& claim_winnings_success(*old(p), *old(t), *final(p), *final(t), unique_id@, claimant@)
            },
        },
{
    let idx = match find_event_index(&p.predictions, unique_id) {
        None => {
            return Err(PredictionMarketError::EventNotFound);
        },
        Some(i) => i,
    };
    if !matches!(p.predictions[idx].status, EventStatus::Resolved) {
        return Err(PredictionMarketError::EventNotResolved);
    }
    proof {
        assert(event_wf(old(p).predictions@[idx as int]));
    }
    let w = match p.predictions[idx].winning_outcome {
        Some(w) => w,
        None => {
            proof {
                assert(false);
            }
            vstd::pervasive::unreached()
        },
    };
    let wv = w as usize;
    let pool = p.predictions[idx].total_pool_amount;
    let wt = p.predictions[idx].outcomes[wv].total_amount;
    let entry = find_bets_entry_index(&p.predictions[idx].outcomes[wv].bets, claimant);
    let (bought, sold): (u128, u128) = match entry {
        Some(bi) => {
            proof {
                lemma_bets_of_at_index(p.predictions@[idx as int].outcomes@[wv as int].bets@, bi as int);
            }
            compute_stakes(&p.predictions[idx].outcomes[wv].bets[bi].bets)
        },
        None => {
            proof {
                lemma_bets_of_absent(p.predictions@[idx as int].outcomes@[wv as int].bets@, claimant@);
            }
            (0, 0)
        },
    };
    let ghost e0 = p.predictions@[idx as int];
    let net: u128 = if sold >= bought {
        0
    } else {
        bought - sold
    };
    let stake: u64 = if net > wt as u128 {
        wt
    } else {
        net as u64
    };
    proof {
        assert(stake as int == claimant_stake(
            bets_of(e0.outcomes@[wv as int].bets@, claimant@),
            wt as int,
        ));
    }
    let payout = payout_amount(stake, pool, wt);
    if payout > t.supply - t.circulating_supply {
        return Err(PredictionMarketError::SupplyExceeded);
    }
    let mut ev = p.predictions.remove(idx);
    let mut oc = ev.outcomes.remove(wv);
    let ghost o0 = oc;
    match entry {
        Some(bi) => {
            let mut en = oc.bets.remove(bi);
            mark_bets_claimed(&mut en.bets);
            let ghost en_new = en;
            oc.bets.insert(bi, en);
            proof {
                assert(oc.bets@ =~= o0.bets@.update(bi as int, en_new));
                lemma_bets_of_at_index(oc.bets@, bi as int);
                assert forall|u: Seq<u8>| u != claimant@ implies #[trigger] bets_of(oc.bets@, u)
                    == bets_of(o0.bets@, u) by {
                    lemma_bets_of_update(o0.bets@, bi as int, en_new, u);
                }
                assert(entry_users_unique(oc.bets@)) by {
                    assert(forall|k: int|
                        0 <= k < oc.bets@.len() ==> (#[trigger] oc.bets@[k]).user@
                            == o0.bets@[k].user@);
                }
            }
        },
        None => {
            proof {
                assert(mark_claimed(Seq::<Bet>::empty()) =~= Seq::<Bet>::empty());
            }
        },
    }
    let ghost oc_new = oc;
    ev.outcomes.insert(wv, oc);
    let ghost ev_new = ev;
    p.predictions.insert(idx, ev);
    proof {
        assert(ev_new.outcomes@ =~= e0.outcomes@.update(wv as int, oc_new));
        assert(p.predictions@ =~= old(p).predictions@.update(idx as int, ev_new));
        lemma_outcome_total_sum_update(e0.outcomes@, wv as int, oc_new);
        lemma_pool_total_update(old(p).predictions@, idx as int, ev_new);
        assert(event_wf(ev_new)) by {
            assert(forall|k: int|
                0 <= k < e0.outcomes@.len() && k != wv as int ==> (#[trigger] ev_new.outcomes@[k])
                    == e0.outcomes@[k]);
        }
        assert(predictions_wf(*p)) by {
            assert(forall|k: int|
                0 <= k < p.predictions@.len() && k != idx as int ==> (#[trigger] p.predictions@[k])
                    == old(p).predictions@[k]);
            assert(forall|k: int, j: int|
                0 <= k < j < p.predictions@.len() ==> p.predictions@[k].unique_id@
                    != p.predictions@[j].unique_id@) by {
                assert(forall|k: int|
                    0 <= k < p.predictions@.len() ==> (#[trigger] p.predictions@[k]).unique_id@
                        == old(p).predictions@[k].unique_id@);
            }
        }
    }
    let m = mint_tokens(t, claimant, payout);
    proof {
        assert(m == Ok::<(), PredictionMarketError>(()));
    }
    Ok(payout)
}

} // verus!
