//! Ledger-wide laws: properties that relate several operations or calls,
//! stated over the same spec functions the operations' contracts use.

use vstd::prelude::*;
use crate::codec_events::{
    enc_wf_predictions, lemma_parse_enc_predictions, spec_enc_predictions, spec_parse_predictions,
};
use crate::events::{
    claim_decision, claim_payout, claim_winnings_success, claimant_stake, create_decision,
    create_event_success, lemma_mark_claimed_exhausts, mark_claimed, place_bet_decision,
    resolve_decision, resolve_event_success, spec_payout, unclaimed_buy_stake,
};
use crate::mint::TokenMintDetails;
use crate::types::{
    bets_of, event_wf, has_event, outcome_total_sum, predictions_wf, spec_find_event, BetType,
    PredictionEvent, PredictionMarketError, Predictions,
};

verus! {

/// Pool conservation: in every well-formed state — and every operation of
/// the ledger both requires and re-establishes well-formedness — each
/// event's pool equals the sum of its outcomes' totals.
pub proof fn lemma_pool_conservation(p: Predictions, i: int)
    requires
        predictions_wf(p),
        0 <= i < p.predictions@.len(),
    ensures
        p.predictions@[i].total_pool_amount as int == outcome_total_sum(
            p.predictions@[i].outcomes@,
        ),
{
    assert(event_wf(p.predictions@[i]));
}

/// Creating an event leaves its id taken: after a successful `create_event`,
/// a second call with the same `unique_id` by any signer is refused with
/// `DuplicateEvent`.
pub proof fn lemma_create_event_duplicate(
    p0: Predictions,
    p1: Predictions,
    creator: Seq<u8>,
    unique_id: Seq<u8>,
    expiry_timestamp: u64,
    num_outcomes: u8,
)
    requires
        create_event_success(p0, p1, creator, unique_id, expiry_timestamp, num_outcomes),
    ensures
        create_decision(p1, true, unique_id) == Some(PredictionMarketError::DuplicateEvent),
{
    let last = p1.predictions@.len() - 1;
    assert(p1.predictions@[last].unique_id@ == unique_id);
    assert(has_event(p1.predictions@, unique_id));
}

/// `place_bet` on an event that is no longer `Active` is always refused with
/// `EventNotActive`, whatever the side, stake or bettor.
pub proof fn lemma_place_bet_not_active(
    p: Predictions,
    t: TokenMintDetails,
    unique_id: Seq<u8>,
    outcome_id: u8,
    amount: u64,
    bettor: Seq<u8>,
    side: BetType,
)
    requires
        spec_find_event(p.predictions@, unique_id) matches Some(i) && !(p.predictions@[i].status
            is Active),
    ensures
        place_bet_decision(p, t, unique_id, outcome_id, amount, bettor, side) == Some(
            PredictionMarketError::EventNotActive,
        ),
{
}

/// Resolution is terminal: after a successful `resolve_event`, a second call
/// on the same event by its creator is refused with `EventAlreadyResolved`.
pub proof fn lemma_resolve_event_twice(
    p0: Predictions,
    p1: Predictions,
    unique_id: Seq<u8>,
    winning_outcome: u8,
    second_winning: u8,
    resolver: Seq<u8>,
)
    requires
        predictions_wf(p0),
        resolve_decision(p0, unique_id, winning_outcome, resolver) is None,
        resolve_event_success(p0, p1, unique_id, winning_outcome),
    ensures
        resolve_decision(p1, unique_id, second_winning, resolver) == Some(
            PredictionMarketError::EventAlreadyResolved,
        ),
{
    crate::events::lemma_spec_find_event(p0.predictions@, unique_id);
    let i = spec_find_event(p0.predictions@, unique_id)->0;
    assert(p1.predictions@.len() == p0.predictions@.len());
    assert forall|j: int| 0 <= j < p1.predictions@.len() implies (#[trigger] p1.predictions@[j]).unique_id@
        == p0.predictions@[j].unique_id@ by {
    }
    lemma_spec_find_event_same_ids(p0.predictions@, p1.predictions@, unique_id);
    assert(p1.predictions@[i].creator@ == resolver);
    assert(p1.predictions@[i].status is Resolved);
}

/// A settled claim is owed nothing further: after a successful
/// `claim_winnings`, the same claimant's payout on the same event is zero.
pub proof fn lemma_claim_twice_pays_nothing(
    p0: Predictions,
    t0: TokenMintDetails,
    p1: Predictions,
    t1: TokenMintDetails,
    unique_id: Seq<u8>,
    claimant: Seq<u8>,
)
    requires
        predictions_wf(p0),
        claim_decision(p0, t0, unique_id, claimant) is None,
        claim_winnings_success(p0, t0, p1, t1, unique_id, claimant),
    ensures
        spec_find_event(p1.predictions@, unique_id) == spec_find_event(p0.predictions@, unique_id),
        claim_payout(
            p1.predictions@[spec_find_event(p1.predictions@, unique_id)->0],
            claimant,
        ) == 0,
{
    crate::events::lemma_spec_find_event(p0.predictions@, unique_id);
    let i = spec_find_event(p0.predictions@, unique_id)->0;
    assert forall|j: int| 0 <= j < p1.predictions@.len() implies (#[trigger] p1.predictions@[j]).unique_id@
        == p0.predictions@[j].unique_id@ by {
    }
    lemma_spec_find_event_same_ids(p0.predictions@, p1.predictions@, unique_id);
    let e0 = p0.predictions@[i];
    let e1 = p1.predictions@[i];
    assert(event_wf(e0));
    let w = e0.winning_outcome->0 as int;
    let o0 = e0.outcomes@[w];
    let o1 = e1.outcomes@[w];
    assert(bets_of(o1.bets@, claimant) == mark_claimed(bets_of(o0.bets@, claimant)));
    lemma_mark_claimed_exhausts(bets_of(o0.bets@, claimant));
    assert(unclaimed_buy_stake(bets_of(o1.bets@, claimant)) == 0);
    crate::events::lemma_sell_stake_nonneg(bets_of(o1.bets@, claimant));
    assert(claimant_stake(bets_of(o1.bets@, claimant), o1.total_amount as int) == 0);
    if o1.total_amount != 0 {
        assert(spec_payout(0, e1.total_pool_amount as int, o1.total_amount as int) == 0) by {
            vstd::arithmetic::div_mod::lemma_div_of0(o1.total_amount as int);
            assert(0int * (e1.total_pool_amount as int) == 0);
        }
    }
}

/// A payout never exceeds the pool: the effective stake is bounded by the
/// winning outcome's total, so the proportional share is bounded by the
/// whole pool, and it is never negative.
pub proof fn lemma_claim_payout_bounded(e: PredictionEvent, claimant: Seq<u8>)
    requires
        event_wf(e),
        e.status is Resolved,
    ensures
        0 <= claim_payout(e, claimant),
        claim_payout(e, claimant) <= e.total_pool_amount,
{
    let w = e.winning_outcome->0 as int;
    let o = e.outcomes@[w];
    let wt = o.total_amount as int;
    let pool = e.total_pool_amount as int;
    let stake = claimant_stake(bets_of(o.bets@, claimant), wt);
    if wt == 0 {
    } else {
        vstd::arithmetic::mul::lemma_mul_inequality(0, stake, pool);
        vstd::arithmetic::mul::lemma_mul_inequality(stake, wt, pool);
        vstd::arithmetic::div_mod::lemma_multiply_divide_le(stake * pool, wt, pool);
        vstd::arithmetic::div_mod::lemma_div_pos_is_pos(stake * pool, wt);
    }
}

/// Status transitions are monotonic: `Closed`, `Resolved` and `Cancelled`
/// are terminal.  Every operation that could move an event's status — a
/// close, a resolution, or a bet against its pool — refuses an event that is
/// no longer `Active`, so a terminal status never changes again.
pub proof fn lemma_terminal_status_is_final(
    p: Predictions,
    t: TokenMintDetails,
    unique_id: Seq<u8>,
    caller: Seq<u8>,
    outcome_id: u8,
    amount: u64,
    side: BetType,
)
    requires
        spec_find_event(p.predictions@, unique_id) matches Some(i) && !(p.predictions@[i].status
            is Active),
    ensures
        crate::events::close_decision(p, unique_id, caller) is Some,
        resolve_decision(p, unique_id, outcome_id, caller) is Some,
        place_bet_decision(p, t, unique_id, outcome_id, amount, caller, side) is Some,
{
}

/// The codec round trip: a previously encoded aggregate parses back to the
/// encoded value, consuming exactly its bytes — so decoding such a buffer
/// and re-encoding the result reproduces the buffer.
pub proof fn lemma_codec_round_trip(p: Predictions, bytes: Seq<u8>)
    requires
        enc_wf_predictions(p@),
        bytes == spec_enc_predictions(p@),
    ensures
        spec_parse_predictions(bytes, 0) == Some((p@, bytes.len() as int)),
{
    assert(bytes.subrange(0, bytes.len() as int) =~= bytes);
    lemma_parse_enc_predictions(p@, bytes, 0);
}

/// The standalone token operations keep the two ledgers' books balanced: a
/// mint grows holdings and circulation alike, and a burn only shrinks
/// holdings, so no more value is ever at stake in pools and held in balances
/// than is circulating.
pub proof fn lemma_token_ops_keep_books(
    p: Predictions,
    t0: TokenMintDetails,
    t1: TokenMintDetails,
    target: Seq<u8>,
    amount: u64,
)
    requires
        crate::events::books_balanced(p, t0),
    ensures
        crate::mint::mint_tokens_success(t0, t1, target, amount) ==> crate::events::books_balanced(
            p,
            t1,
        ),
        crate::mint::burn_tokens_success(t0, t1, target, amount) ==> crate::events::books_balanced(
            p,
            t1,
        ),
{
}

/// `spec_find_event` looks only at the event ids: two aggregates with the
/// same ids in the same places are searched alike.
proof fn lemma_spec_find_event_same_ids(
    s1: Seq<PredictionEvent>,
    s2: Seq<PredictionEvent>,
    unique_id: Seq<u8>,
)
    requires
        s1.len() == s2.len(),
        forall|j: int| 0 <= j < s1.len() ==> (#[trigger] s1[j]).unique_id@ == s2[j].unique_id@,
    ensures
        spec_find_event(s1, unique_id) == spec_find_event(s2, unique_id),
    decreases s1.len(),
{
    if s1.len() > 0 {
        assert(forall|j: int|
            0 <= j < s1.drop_first().len() ==> (#[trigger] s1.drop_first()[j]) == s1[j + 1]);
        assert(forall|j: int|
            0 <= j < s2.drop_first().len() ==> (#[trigger] s2.drop_first()[j]) == s2[j + 1]);
        lemma_spec_find_event_same_ids(s1.drop_first(), s2.drop_first(), unique_id);
    }
}

} // verus!
