//! The call handlers: each invocation is one synchronous
//! load-validate-mutate-encode-write cycle against its storage slot(s).  All
//! validation and all value computation complete before the first persisted
//! write, and the write is the last action, so a failing call never leaves
//! partially applied state behind.

use vstd::prelude::*;
use crate::events::{
    books_balanced, claim_decision, claim_payout, claim_winnings, claim_winnings_success,
    close_decision, close_event, close_event_success, create_decision, create_event,
    create_event_success, place_bet, place_bet_decision, place_bet_success, resolve_decision,
    resolve_event, resolve_event_success,
};
use crate::mint::{
    balances_sum, burn_tokens, burn_tokens_success, lemma_balances_sum_take_le, mint_tokens,
    mint_tokens_success, mint_wf, spec_balance_of, InitializeMintInput, MintStatus,
    TokenMintDetails,
};
use crate::codec::view_seq;
use crate::codec_events::enc_wf_predictions;
use crate::codec_mint::enc_wf_mint;
use crate::storage::{
    encode_mint, encode_predictions, lemma_loaded_mint_enc_wf, lemma_loaded_predictions_enc_wf,
    load_mint, load_predictions, loaded_mint_from, loaded_predictions_from, no_wf_loadable_mint,
    no_wf_loadable_predictions, slot_holds_mint, slot_holds_predictions, store_mint,
    store_predictions, write_into_slot,
};
use crate::types::{
    id_eq, pool_total, predictions_wf, spec_find_event, BetOnPredictionEventParams,
    ClosePredictionEventParams, MintTokenParams, PredictionEventParams, PredictionMarketError,
    Predictions, Pubkey,
};

verus! {

/// A prefix of the events sums its pools to no more than the whole.
proof fn lemma_pool_total_take_le(events: Seq<crate::types::PredictionEvent>, i: int)
    requires
        0 <= i <= events.len(),
    ensures
        pool_total(events.take(i)) <= pool_total(events),
    decreases events.len(),
{
    if i == events.len() {
        assert(events.take(i) =~= events);
    } else {
        assert(events.take(i) =~= events.drop_last().take(i));
        lemma_pool_total_take_le(events.drop_last(), i);
    }
}

/// Decide whether the two loaded ledgers agree on the books: no more value
/// at stake and held than is circulating.
fn check_books_balanced(p: &Predictions, t: &TokenMintDetails) -> (r: bool)
    requires
        predictions_wf(*p),
        mint_wf(*t),
    ensures
        r == books_balanced(*p, *t),
{
    let nb = t.balances.len();
    let mut bsum: u128 = 0;
    let mut i: usize = 0;
    proof {
        assert(t.balances@.take(0) =~= Seq::<crate::mint::BalanceEntry>::empty());
    }
    while i < nb
        invariant
            0 <= i <= nb,
            nb == t.balances@.len(),
            mint_wf(*t),
            bsum as int == balances_sum(t.balances@.take(i as int)),
            bsum <= t.circulating_supply,
        decreases nb - i,
    {
        proof {
            assert(t.balances@.take(i + 1).drop_last() =~= t.balances@.take(i as int));
            assert(t.balances@.take(i + 1).last() == t.balances@[i as int]);
            lemma_balances_sum_take_le(t.balances@, i + 1);
        }
        bsum = bsum + t.balances[i].amount as u128;
        i += 1;
    }
    proof {
        assert(t.balances@.take(nb as int) =~= t.balances@);
    }
    let np = p.predictions.len();
    let mut psum: u128 = 0;
    let mut j: usize = 0;
    proof {
        assert(p.predictions@.take(0) =~= Seq::<crate::types::PredictionEvent>::empty());
    }
    while j < np
        invariant
            0 <= j <= np,
            np == p.predictions@.len(),
            np <= u32::MAX,
            psum as int == pool_total(p.predictions@.take(j as int)),
            psum as int <= (j as int) * (u64::MAX as int),
        decreases np - j,
    {
        proof {
            assert(p.predictions@.take(j + 1).drop_last() =~= p.predictions@.take(j as int));
            assert(p.predictions@.take(j + 1).last() == p.predictions@[j as int]);
            vstd::arithmetic::mul::lemma_mul_inequality(
                j as int,
                u32::MAX as int,
                u64::MAX as int,
            );
        }
        psum = psum + p.predictions[j].total_pool_amount as u128;
        j += 1;
    }
    proof {
        assert(p.predictions@.take(np as int) =~= p.predictions@);
        vstd::arithmetic::mul::lemma_mul_inequality(np as int, u32::MAX as int, u64::MAX as int);
    }
    psum + bsum <= t.circulating_supply as u128
}

/// The aggregate a successful `create_event` leaves is re-encodable: the
/// event counter was under its `u32` header's bound, and the appended event
/// holds at most 255 empty outcomes.
proof fn lemma_create_successor_enc_wf(
    p0: Predictions,
    p1: Predictions,
    creator: Seq<u8>,
    unique_id: Seq<u8>,
    expiry_timestamp: u64,
    num_outcomes: u8,
)
    requires
        enc_wf_predictions(p0@),
        p0.predictions@.len() < u32::MAX,
        unique_id.len() == 32,
        creator.len() == 32,
        create_event_success(p0, p1, creator, unique_id, expiry_timestamp, num_outcomes),
    ensures
        enc_wf_predictions(p1@),
{
    assert(view_seq(p1.predictions@).len() == p1.predictions@.len());
    assert(view_seq(p0.predictions@).len() == p0.predictions@.len());
    assert forall|i: int|
        0 <= i < p1.predictions@.len() implies <crate::types::PredictionEvent as crate::codec::Codec>::enc_wf(
        #[trigger] view_seq(p1.predictions@)[i],
    ) by {
        assert(view_seq(p1.predictions@)[i] == p1.predictions@[i]@);
        if i < p0.predictions@.len() {
            assert(p1.predictions@.drop_last()[i] == p1.predictions@[i]);
            assert(p1.predictions@[i] == p0.predictions@[i]);
            assert(view_seq(p0.predictions@)[i] == p0.predictions@[i]@);
        } else {
            let e = p1.predictions@.last();
            assert(view_seq(e.outcomes@).len() == e.outcomes@.len());
            assert forall|k: int|
                0 <= k < e.outcomes@.len() implies <crate::types::Outcome as crate::codec::Codec>::enc_wf(
                #[trigger] view_seq(e.outcomes@)[k],
            ) by {
                assert(view_seq(e.outcomes@)[k] == e.outcomes@[k]@);
                assert(e.outcomes@[k].bets@.len() == 0);
                assert(view_seq(e.outcomes@[k].bets@).len() == 0);
            }
        }
    }
}

/// Overwriting one event with a copy that keeps its id, creator and
/// outcomes — as a close or a resolution does — keeps the aggregate
/// re-encodable.
proof fn lemma_update_event_enc_wf(p0: Predictions, p1: Predictions, i: int)
    requires
        enc_wf_predictions(p0@),
        0 <= i < p0.predictions@.len(),
        p1.predictions@.len() == p0.predictions@.len(),
        forall|j: int|
            0 <= j < p0.predictions@.len() && j != i ==> #[trigger] p1.predictions@[j]
                == p0.predictions@[j],
        p1.predictions@[i].unique_id == p0.predictions@[i].unique_id,
        p1.predictions@[i].creator == p0.predictions@[i].creator,
        p1.predictions@[i].outcomes == p0.predictions@[i].outcomes,
    ensures
        enc_wf_predictions(p1@),
{
    assert(view_seq(p1.predictions@).len() == p1.predictions@.len());
    assert(view_seq(p0.predictions@).len() == p0.predictions@.len());
    assert forall|j: int|
        0 <= j < p1.predictions@.len() implies <crate::types::PredictionEvent as crate::codec::Codec>::enc_wf(
        #[trigger] view_seq(p1.predictions@)[j],
    ) by {
        assert(view_seq(p1.predictions@)[j] == p1.predictions@[j]@);
        assert(view_seq(p0.predictions@)[j] == p0.predictions@[j]@);
        if j == i {
            assert(p1.predictions@[i].unique_id@ == p0.predictions@[i].unique_id@);
            assert(p1.predictions@[i].creator@ == p0.predictions@[i].creator@);
            assert(view_seq(p1.predictions@[i].outcomes@) == view_seq(
                p0.predictions@[i].outcomes@,
            ));
        }
    }
}

/// A token record that keeps its frame and does not outgrow its balance
/// table's `u32` header stays re-encodable.
proof fn lemma_mint_frame_enc_wf(t0: TokenMintDetails, t1: TokenMintDetails)
    requires
        enc_wf_mint(t0@),
        crate::mint::mint_frame(t0, t1),
        t1.balances@.len() <= u32::MAX,
    ensures
        enc_wf_mint(t1@),
{
    assert(view_seq(t1.balances@).len() == t1.balances@.len());
    assert(view_seq(t1.token_metadata@) == view_seq(t0.token_metadata@));
    assert(view_seq(t1.token_metadata@).len() == t1.token_metadata@.len());
    assert forall|i: int|
        0 <= i < t1.balances@.len() implies <crate::mint::BalanceEntry as crate::codec::Codec>::enc_wf(
        #[trigger] view_seq(t1.balances@)[i],
    ) by {
        assert(view_seq(t1.balances@)[i] == t1.balances@[i]@);
        assert(t1.balances@[i].user@.len() == 32);
    }
}

/// Handle a create-event instruction against the event slot.
pub fn process_create_event(
    slot: &mut Vec<u8>,
    creator: &Pubkey,
    creator_is_signer: bool,
    params: &PredictionEventParams,
) -> (r: Result<(), PredictionMarketError>)
    ensures
        final(slot)@.len() >= old(slot)@.len(),
        match r {
            Ok(()) => exists|p0: Predictions, p1: Predictions|
                #![trigger loaded_predictions_from(old(slot)@, p0), create_event_success(p0, p1, creator@, params.unique_id@, params.expiry_timestamp, params.num_outcomes)]
                {
                    &&& predictions_wf(p0)
                    &&& loaded_predictions_from(old(slot)@, p0)
                    &&& create_decision(p0, creator_is_signer, params.unique_id@) is None
                    &&& create_event_success(
                        p0,
                        p1,
                        creator@,
                        params.unique_id@,
                        params.expiry_timestamp,
                        params.num_outcomes,
                    )
                    &&& predictions_wf(p1)
                    &&& slot_holds_predictions(final(slot)@, p1, old(slot)@.len() as int)
                },
            Err(e) => {
                &&& *final(slot) == *old(slot)
                &&& (e == PredictionMarketError::DecodeError ==> old(slot)@.len() > 0
                    && no_wf_loadable_predictions(old(slot)@))
                &&& (e != PredictionMarketError::DecodeError ==> exists|p0: Predictions|
                    #![trigger loaded_predictions_from(old(slot)@, p0)]
                    {
                        &&& predictions_wf(p0)
                        &&& loaded_predictions_from(old(slot)@, p0)
                        &&& create_decision(p0, creator_is_signer, params.unique_id@) == Some(e)
                    })
            },
        },
{
    let mut p = match load_predictions(slot) {
        Err(e) => {
            return Err(e);
        },
        Ok(p) => p,
    };
    let ghost p0g = p;
    match create_event(
        &mut p,
        creator,
        creator_is_signer,
        &params.unique_id,
        params.expiry_timestamp,
        params.num_outcomes,
    ) {
        Err(e) => Err(e),
        Ok(()) => {
            proof {
                lemma_loaded_predictions_enc_wf(old(slot)@, p0g);
                lemma_create_successor_enc_wf(
                    p0g,
                    p,
                    creator@,
                    params.unique_id@,
                    params.expiry_timestamp,
                    params.num_outcomes,
                );
            }
            match store_predictions(slot, &p) {
                Err(e) => {
                    proof {
                        assert(false);
                    }
                    Err(e)
                },
                Ok(()) => {
                    proof {
                        assert(create_event_success(
                            p0g,
                            p,
                            creator@,
                            params.unique_id@,
                            params.expiry_timestamp,
                            params.num_outcomes,
                        ));
                        assert(slot_holds_predictions(slot@, p, old(slot)@.len() as int));
                    }
                    Ok(())
                },
            }
        },
    }
}

/// Handle a close-event instruction against the event slot.
pub fn process_close_event(
    slot: &mut Vec<u8>,
    params: &ClosePredictionEventParams,
    caller: &Pubkey,
) -> (r: Result<(), PredictionMarketError>)
    ensures
        final(slot)@.len() >= old(slot)@.len(),
        match r {
            Ok(()) => exists|p0: Predictions, p1: Predictions|
                #![trigger loaded_predictions_from(old(slot)@, p0), close_event_success(p0, p1, params.unique_id@)]
                {
                    &&& predictions_wf(p0)
                    &&& loaded_predictions_from(old(slot)@, p0)
                    &&& close_decision(p0, params.unique_id@, caller@) is None
                    &&& close_event_success(p0, p1, params.unique_id@)
                    &&& predictions_wf(p1)
                    &&& slot_holds_predictions(final(slot)@, p1, old(slot)@.len() as int)
                },
            Err(e) => {
                &&& *final(slot) == *old(slot)
                &&& (e == PredictionMarketError::DecodeError ==> old(slot)@.len() > 0
                    && no_wf_loadable_predictions(old(slot)@))
                &&& (e != PredictionMarketError::DecodeError ==> exists|p0: Predictions|
                    #![trigger loaded_predictions_from(old(slot)@, p0)]
                    {
                        &&& predictions_wf(p0)
                        &&& loaded_predictions_from(old(slot)@, p0)
                        &&& close_decision(p0, params.unique_id@, caller@) == Some(e)
                    })
            },
        },
{
    let mut p = match load_predictions(slot) {
        Err(e) => {
            return Err(e);
        },
        Ok(p) => p,
    };
    let ghost p0g = p;
    match close_event(&mut p, &params.unique_id, caller) {
        Err(e) => Err(e),
        Ok(()) => {
            proof {
                lemma_loaded_predictions_enc_wf(old(slot)@, p0g);
                crate::events::lemma_spec_find_event(p0g.predictions@, params.unique_id@);
                lemma_update_event_enc_wf(
                    p0g,
                    p,
                    spec_find_event(p0g.predictions@, params.unique_id@)->0,
                );
            }
            match store_predictions(slot, &p) {
                Err(e) => {
                    proof {
                        assert(false);
                    }
                    Err(e)
                },
                Ok(()) => {
                    proof {
                        assert(close_event_success(p0g, p, params.unique_id@));
                        assert(slot_holds_predictions(slot@, p, old(slot)@.len() as int));
                    }
                    Ok(())
                },
            }
        },
    }
}

/// Handle a resolve-event instruction against the event slot.
pub fn process_resolve_event(
    slot: &mut Vec<u8>,
    unique_id: &[u8; 32],
    winning_outcome: u8,
    resolver: &Pubkey,
) -> (r: Result<(), PredictionMarketError>)
    ensures
        final(slot)@.len() >= old(slot)@.len(),
        match r {
            Ok(()) => exists|p0: Predictions, p1: Predictions|
                #![trigger loaded_predictions_from(old(slot)@, p0), resolve_event_success(p0, p1, unique_id@, winning_outcome)]
                {
                    &&& predictions_wf(p0)
                    &&& loaded_predictions_from(old(slot)@, p0)
                    &&& resolve_decision(p0, unique_id@, winning_outcome, resolver@) is None
                    &&& resolve_event_success(p0, p1, unique_id@, winning_outcome)
                    &&& predictions_wf(p1)
                    &&& slot_holds_predictions(final(slot)@, p1, old(slot)@.len() as int)
                },
            Err(e) => {
                &&& *final(slot) == *old(slot)
                &&& (e == PredictionMarketError::DecodeError ==> old(slot)@.len() > 0
                    && no_wf_loadable_predictions(old(slot)@))
                &&& (e != PredictionMarketError::DecodeError ==> exists|p0: Predictions|
                    #![trigger loaded_predictions_from(old(slot)@, p0)]
                    {
                        &&& predictions_wf(p0)
                        &&& loaded_predictions_from(old(slot)@, p0)
                        &&& resolve_decision(p0, unique_id@, winning_outcome, resolver@) == Some(e)
                    })
            },
        },
{
    let mut p = match load_predictions(slot) {
        Err(e) => {
            return Err(e);
        },
        Ok(p) => p,
    };
    let ghost p0g = p;
    match resolve_event(&mut p, unique_id, winning_outcome, resolver) {
        Err(e) => Err(e),
        Ok(()) => {
            proof {
                lemma_loaded_predictions_enc_wf(old(slot)@, p0g);
                crate::events::lemma_spec_find_event(p0g.predictions@, unique_id@);
                lemma_update_event_enc_wf(
                    p0g,
                    p,
                    spec_find_event(p0g.predictions@, unique_id@)->0,
                );
            }
            match store_predictions(slot, &p) {
                Err(e) => {
                    proof {
                        assert(false);
                    }
                    Err(e)
                },
                Ok(()) => {
                    proof {
                        assert(resolve_event_success(p0g, p, unique_id@, winning_outcome));
                        assert(slot_holds_predictions(slot@, p, old(slot)@.len() as int));
                    }
                    Ok(())
                },
            }
        },
    }
}

/// Handle a place-bet instruction: one atomic unit across the event slot and
/// the token slot.  Two slots whose accounting disagrees (more at stake and
/// held than circulating) are treated as malformed state, `DecodeError`.
pub fn process_place_bet(
    event_slot: &mut Vec<u8>,
    token_slot: &mut Vec<u8>,
    params: &BetOnPredictionEventParams,
    bettor: &Pubkey,
    timestamp: u64,
) -> (r: Result<(), PredictionMarketError>)
    ensures
        final(event_slot)@.len() >= old(event_slot)@.len(),
        final(token_slot)@.len() >= old(token_slot)@.len(),
        match r {
            Ok(()) => exists|
                p0: Predictions,
                t0: TokenMintDetails,
                p1: Predictions,
                t1: TokenMintDetails,
            |
                #![trigger loaded_predictions_from(old(event_slot)@, p0), loaded_mint_from(old(token_slot)@, t0), place_bet_success(p0, t0, p1, t1, params.unique_id@, params.outcome_id, params.amount, *bettor, params.side, timestamp)]
                {
                    &&& predictions_wf(p0)
                    &&& mint_wf(t0)
                    &&& loaded_predictions_from(old(event_slot)@, p0)
                    &&& loaded_mint_from(old(token_slot)@, t0)
                    &&& books_balanced(p0, t0)
                    &&& place_bet_decision(
                        p0,
                        t0,
                        params.unique_id@,
                        params.outcome_id,
                        params.amount,
                        bettor@,
                        params.side,
                    ) is None
                    &&& place_bet_success(
                        p0,
                        t0,
                        p1,
                        t1,
                        params.unique_id@,
                        params.outcome_id,
                        params.amount,
                        *bettor,
                        params.side,
                        timestamp,
                    )
                    &&& predictions_wf(p1)
                    &&& mint_wf(t1)
                    &&& books_balanced(p1, t1)
                    &&& slot_holds_predictions(final(event_slot)@, p1, old(event_slot)@.len() as int)
                    &&& slot_holds_mint(final(token_slot)@, t1, old(token_slot)@.len() as int)
                },
            Err(e) => {
                &&& *final(event_slot) == *old(event_slot)
                &&& *final(token_slot) == *old(token_slot)
                &&& (e == PredictionMarketError::DecodeError ==> (no_wf_loadable_predictions(
                    old(event_slot)@,
                ) || no_wf_loadable_mint(old(token_slot)@) || exists|
                    p0: Predictions,
                    t0: TokenMintDetails,
                |
                    #![trigger loaded_predictions_from(old(event_slot)@, p0), loaded_mint_from(old(token_slot)@, t0)]
                    {
                        &&& predictions_wf(p0)
                        &&& mint_wf(t0)
                        &&& loaded_predictions_from(old(event_slot)@, p0)
                        &&& loaded_mint_from(old(token_slot)@, t0)
                        &&& !books_balanced(p0, t0)
                    }))
                &&& (e != PredictionMarketError::DecodeError && e
                    != PredictionMarketError::EncodeError ==> exists|
                    p0: Predictions,
                    t0: TokenMintDetails,
                |
                    #![trigger loaded_predictions_from(old(event_slot)@, p0), loaded_mint_from(old(token_slot)@, t0)]
                    {
                        &&& predictions_wf(p0)
                        &&& mint_wf(t0)
                        &&& loaded_predictions_from(old(event_slot)@, p0)
                        &&& loaded_mint_from(old(token_slot)@, t0)
                        &&& books_balanced(p0, t0)
                        &&& place_bet_decision(
                            p0,
                            t0,
                            params.unique_id@,
                            params.outcome_id,
                            params.amount,
                            bettor@,
                            params.side,
                        ) == Some(e)
                    })
                &&& (e == PredictionMarketError::EncodeError ==> exists|
                    p0: Predictions,
                    t0: TokenMintDetails,
                    p1: Predictions,
                    t1: TokenMintDetails,
                |
                    #![trigger loaded_predictions_from(old(event_slot)@, p0), loaded_mint_from(old(token_slot)@, t0), place_bet_success(p0, t0, p1, t1, params.unique_id@, params.outcome_id, params.amount, *bettor, params.side, timestamp)]
                    {
                        &&& predictions_wf(p0)
                        &&& mint_wf(t0)
                        &&& loaded_predictions_from(old(event_slot)@, p0)
                        &&& loaded_mint_from(old(token_slot)@, t0)
                        &&& books_balanced(p0, t0)
                        &&& place_bet_decision(
                            p0,
                            t0,
                            params.unique_id@,
                            params.outcome_id,
                            params.amount,
                            bettor@,
                            params.side,
                        ) is None
                        &&& place_bet_success(
                            p0,
                            t0,
                            p1,
                            t1,
                            params.unique_id@,
                            params.outcome_id,
                            params.amount,
                            *bettor,
                            params.side,
                            timestamp,
                        )
                        &&& predictions_wf(p1)
                        &&& mint_wf(t1)
                        &&& (!enc_wf_predictions(p1@) || !enc_wf_mint(t1@))
                    })
            },
        },
{
    let mut p = match load_predictions(event_slot) {
        Err(e) => {
            return Err(e);
        },
        Ok(p) => p,
    };
    let mut t = match load_mint(token_slot) {
        Err(e) => {
            return Err(e);
        },
        Ok(t) => t,
    };
    if !check_books_balanced(&p, &t) {
        return Err(PredictionMarketError::DecodeError);
    }
    let ghost p0g = p;
    let ghost t0g = t;
    match place_bet(
        &mut p,
        &mut t,
        &params.unique_id,
        params.outcome_id,
        params.amount,
        bettor,
        params.side,
        timestamp,
    ) {
        Err(e) => Err(e),
        Ok(()) => {
            proof {
                assert(place_bet_success(
                    p0g,
                    t0g,
                    p,
                    t,
                    params.unique_id@,
                    params.outcome_id,
                    params.amount,
                    *bettor,
                    params.side,
                    timestamp,
                ));
            }
            let enc_p = match encode_predictions(&p) {
                Err(e) => {
                    return Err(e);
                },
                Ok(x) => x,
            };
            let enc_t = match encode_mint(&t) {
                Err(e) => {
                    return Err(e);
                },
                Ok(x) => x,
            };
            write_into_slot(event_slot, &enc_p);
            write_into_slot(token_slot, &enc_t);
            proof {
                assert(slot_holds_predictions(event_slot@, p, old(event_slot)@.len() as int));
                assert(slot_holds_mint(token_slot@, t, old(token_slot)@.len() as int));
            }
            Ok(())
        },
    }
}

/// Handle a claim-winnings call: one atomic unit across the event slot and
/// the token slot; returns the payout.
pub fn process_claim_winnings(
    event_slot: &mut Vec<u8>,
    token_slot: &mut Vec<u8>,
    unique_id: &[u8; 32],
    claimant: &Pubkey,
) -> (r: Result<u64, PredictionMarketError>)
    ensures
        final(event_slot)@.len() >= old(event_slot)@.len(),
        final(token_slot)@.len() >= old(token_slot)@.len(),
        match r {
            Ok(payout) => exists|
                p0: Predictions,
                t0: TokenMintDetails,
                p1: Predictions,
                t1: TokenMintDetails,
            |
                #![trigger loaded_predictions_from(old(event_slot)@, p0), loaded_mint_from(old(token_slot)@, t0), claim_winnings_success(p0, t0, p1, t1, unique_id@, claimant@)]
                {
                    &&& predictions_wf(p0)
                    &&& mint_wf(t0)
                    &&& loaded_predictions_from(old(event_slot)@, p0)
                    &&& loaded_mint_from(old(token_slot)@, t0)
                    &&& books_balanced(p0, t0)
                    &&& claim_decision(p0, t0, unique_id@, claimant@) is None
                    &&& claim_winnings_success(p0, t0, p1, t1, unique_id@, claimant@)
                    &&& payout == (claim_payout(
                        p0.predictions@[spec_find_event(p0.predictions@, unique_id@)->0],
                        claimant@,
                    ) as u64)
                    &&& predictions_wf(p1)
                    &&& mint_wf(t1)
                    &&& books_balanced(p1, t1)
                    &&& slot_holds_predictions(final(event_slot)@, p1, old(event_slot)@.len() as int)
                    &&& slot_holds_mint(final(token_slot)@, t1, old(token_slot)@.len() as int)
                },
            Err(e) => {
                &&& *final(event_slot) == *old(event_slot)
                &&& *final(token_slot) == *old(token_slot)
                &&& (e == PredictionMarketError::DecodeError ==> (no_wf_loadable_predictions(
                    old(event_slot)@,
                ) || no_wf_loadable_mint(old(token_slot)@) || exists|
                    p0: Predictions,
                    t0: TokenMintDetails,
                |
                    #![trigger loaded_predictions_from(old(event_slot)@, p0), loaded_mint_from(old(token_slot)@, t0)]
                    {
                        &&& predictions_wf(p0)
                        &&& mint_wf(t0)
                        &&& loaded_predictions_from(old(event_slot)@, p0)
                        &&& loaded_mint_from(old(token_slot)@, t0)
                        &&& !books_balanced(p0, t0)
                    }))
                &&& (e != PredictionMarketError::DecodeError && e
                    != PredictionMarketError::EncodeError ==> exists|
                    p0: Predictions,
                    t0: TokenMintDetails,
                |
                    #![trigger loaded_predictions_from(old(event_slot)@, p0), loaded_mint_from(old(token_slot)@, t0)]
                    {
                        &&& predictions_wf(p0)
                        &&& mint_wf(t0)
                        &&& loaded_predictions_from(old(event_slot)@, p0)
                        &&& loaded_mint_from(old(token_slot)@, t0)
                        &&& books_balanced(p0, t0)
                        &&& claim_decision(p0, t0, unique_id@, claimant@) == Some(e)
                    })
                &&& (e == PredictionMarketError::EncodeError ==> exists|
                    p0: Predictions,
                    t0: TokenMintDetails,
                    p1: Predictions,
                    t1: TokenMintDetails,
                |
                    #![trigger loaded_predictions_from(old(event_slot)@, p0), loaded_mint_from(old(token_slot)@, t0), claim_winnings_success(p0, t0, p1, t1, unique_id@, claimant@)]
                    {
                        &&& predictions_wf(p0)
                        &&& mint_wf(t0)
                        &&& loaded_predictions_from(old(event_slot)@, p0)
                        &&& loaded_mint_from(old(token_slot)@, t0)
                        &&& books_balanced(p0, t0)
                        &&& claim_decision(p0, t0, unique_id@, claimant@) is None
                        &&& claim_winnings_success(p0, t0, p1, t1, unique_id@, claimant@)
                        &&& predictions_wf(p1)
                        &&& mint_wf(t1)
                        &&& (!enc_wf_predictions(p1@) || !enc_wf_mint(t1@))
                    })
            },
        },
{
    let mut p = match load_predictions(event_slot) {
        Err(e) => {
            return Err(e);
        },
        Ok(p) => p,
    };
    let mut t = match load_mint(token_slot) {
        Err(e) => {
            return Err(e);
        },
        Ok(t) => t,
    };
    if !check_books_balanced(&p, &t) {
        return Err(PredictionMarketError::DecodeError);
    }
    let ghost p0g = p;
    let ghost t0g = t;
    match claim_winnings(&mut p, &mut t, unique_id, claimant) {
        Err(e) => Err(e),
        Ok(payout) => {
            proof {
                assert(claim_winnings_success(p0g, t0g, p, t, unique_id@, claimant@));
            }
            let enc_p = match encode_predictions(&p) {
                Err(e) => {
                    return Err(e);
                },
                Ok(x) => x,
            };
            let enc_t = match encode_mint(&t) {
                Err(e) => {
                    return Err(e);
                },
                Ok(x) => x,
            };
            write_into_slot(event_slot, &enc_p);
            write_into_slot(token_slot, &enc_t);
            proof {
                assert(slot_holds_predictions(event_slot@, p, old(event_slot)@.len() as int));
                assert(slot_holds_mint(token_slot@, t, old(token_slot)@.len() as int));
            }
            Ok(payout)
        },
    }
}

/// Handle an initialize-mint instruction: the target slot must be untouched
/// storage owned by this program's identity.
pub fn process_initialize_mint(
    slot: &mut Vec<u8>,
    account_owner: &Pubkey,
    program_id: &Pubkey,
    input: InitializeMintInput,
) -> (r: Result<(), PredictionMarketError>)
    ensures
        final(slot)@.len() >= old(slot)@.len(),
        match r {
            Ok(()) => {
                &&& old(slot)@.len() == 0
                &&& account_owner@ == program_id@
                &&& exists|t1: TokenMintDetails|
                    #![trigger slot_holds_mint(final(slot)@, t1, 0)]
                    {
                        &&& mint_wf(t1)
                        &&& t1.owner@ == input.owner@
                        &&& t1.status is Ongoing
                        &&& t1.supply == input.supply
                        &&& t1.circulating_supply == 0
                        &&& t1.ticker@ == input.ticker@
                        &&& t1.decimals == input.decimals
                        &&& t1.token_metadata@.len() == 0
                        &&& t1.balances@.len() == 0
                        &&& slot_holds_mint(final(slot)@, t1, 0)
                    }
            },
            Err(e) => {
                &&& *final(slot) == *old(slot)
                &&& (old(slot)@.len() > 0 ==> e == PredictionMarketError::AccountAlreadyInitialized)
                &&& (old(slot)@.len() == 0 && account_owner@ != program_id@ ==> e
                    == PredictionMarketError::IllegalOwner)
                &&& (old(slot)@.len() == 0 && account_owner@ == program_id@ ==> (e
                    == PredictionMarketError::EncodeError && input.ticker@.len() > u32::MAX))
            },
        },
{
    if slot.len() > 0 {
        return Err(PredictionMarketError::AccountAlreadyInitialized);
    }
    if !id_eq(account_owner, program_id) {
        return Err(PredictionMarketError::IllegalOwner);
    }
    let metadata: Vec<crate::mint::MetadataEntry> = Vec::new();
    let t = TokenMintDetails::new(input, MintStatus::Ongoing, metadata);
    match store_mint(slot, &t) {
        Err(e) => {
            proof {
                assert(crate::codec::view_seq(t.token_metadata@) =~= Seq::<
                    crate::codec_mint::MetadataEntryV,
                >::empty());
                assert(crate::codec::view_seq(t.balances@) =~= Seq::<
                    crate::codec_mint::BalanceEntryV,
                >::empty());
            }
            Err(e)
        },
        Ok(()) => {
            proof {
                assert(slot_holds_mint(slot@, t, 0));
            }
            Ok(())
        },
    }
}

/// Handle a mint-tokens instruction against the token slot.
pub fn process_mint_tokens(slot: &mut Vec<u8>, target: &Pubkey, params: &MintTokenParams) -> (r:
    Result<(), PredictionMarketError>)
    ensures
        final(slot)@.len() >= old(slot)@.len(),
        match r {
            Ok(()) => exists|t0: TokenMintDetails, t1: TokenMintDetails|
                #![trigger loaded_mint_from(old(slot)@, t0), mint_tokens_success(t0, t1, target@, params.amount)]
                {
                    &&& mint_wf(t0)
                    &&& loaded_mint_from(old(slot)@, t0)
                    &&& t0.circulating_supply + params.amount <= t0.supply
                    &&& mint_tokens_success(t0, t1, target@, params.amount)
                    &&& mint_wf(t1)
                    &&& slot_holds_mint(final(slot)@, t1, old(slot)@.len() as int)
                },
            Err(e) => {
                &&& *final(slot) == *old(slot)
                &&& (e == PredictionMarketError::DecodeError ==> no_wf_loadable_mint(old(slot)@))
                &&& (e == PredictionMarketError::SupplyExceeded ==> exists|t0: TokenMintDetails|
                    #![trigger loaded_mint_from(old(slot)@, t0)]
                    {
                        &&& mint_wf(t0)
                        &&& loaded_mint_from(old(slot)@, t0)
                        &&& t0.circulating_supply + params.amount > t0.supply
                    })
                &&& (e == PredictionMarketError::EncodeError ==> exists|
                    t0: TokenMintDetails,
                    t1: TokenMintDetails,
                |
                    #![trigger loaded_mint_from(old(slot)@, t0), mint_tokens_success(t0, t1, target@, params.amount)]
                    {
                        &&& mint_wf(t0)
                        &&& loaded_mint_from(old(slot)@, t0)
                        &&& t0.circulating_supply + params.amount <= t0.supply
                        &&& mint_tokens_success(t0, t1, target@, params.amount)
                        &&& mint_wf(t1)
                        &&& !enc_wf_mint(t1@)
                    })
                &&& (e == PredictionMarketError::DecodeError || e
                    == PredictionMarketError::SupplyExceeded || e
                    == PredictionMarketError::EncodeError)
            },
        },
{
    let mut t = match load_mint(slot) {
        Err(e) => {
            return Err(e);
        },
        Ok(t) => t,
    };
    let ghost t0g = t;
    match mint_tokens(&mut t, target, params.amount) {
        Err(e) => Err(e),
        Ok(()) => {
            proof {
                assert(mint_tokens_success(t0g, t, target@, params.amount));
            }
            match store_mint(slot, &t) {
                Err(e) => Err(e),
                Ok(()) => {
                    proof {
                        assert(slot_holds_mint(slot@, t, old(slot)@.len() as int));
                    }
                    Ok(())
                },
            }
        },
    }
}

/// Handle a burn-tokens instruction against the token slot.
pub fn process_burn_tokens(slot: &mut Vec<u8>, target: &Pubkey, params: &MintTokenParams) -> (r:
    Result<(), PredictionMarketError>)
    ensures
        final(slot)@.len() >= old(slot)@.len(),
        match r {
            Ok(()) => exists|t0: TokenMintDetails, t1: TokenMintDetails|
                #![trigger loaded_mint_from(old(slot)@, t0), burn_tokens_success(t0, t1, target@, params.amount)]
                {
                    &&& mint_wf(t0)
                    &&& loaded_mint_from(old(slot)@, t0)
                    &&& spec_balance_of(t0.balances@, target@) >= params.amount
                    &&& burn_tokens_success(t0, t1, target@, params.amount)
                    &&& mint_wf(t1)
                    &&& slot_holds_mint(final(slot)@, t1, old(slot)@.len() as int)
                },
            Err(e) => {
                &&& *final(slot) == *old(slot)
                &&& (e == PredictionMarketError::DecodeError ==> no_wf_loadable_mint(old(slot)@))
                &&& (e != PredictionMarketError::DecodeError ==> (e
                    == PredictionMarketError::InsufficientFunds && exists|t0: TokenMintDetails|
                    #![trigger loaded_mint_from(old(slot)@, t0)]
                    {
                        &&& mint_wf(t0)
                        &&& loaded_mint_from(old(slot)@, t0)
                        &&& spec_balance_of(t0.balances@, target@) < params.amount
                    }))
            },
        },
{
    let mut t = match load_mint(slot) {
        Err(e) => {
            return Err(e);
        },
        Ok(t) => t,
    };
    let ghost t0g = t;
    match burn_tokens(&mut t, target, params.amount) {
        Err(e) => Err(e),
        Ok(()) => {
            proof {
                lemma_loaded_mint_enc_wf(old(slot)@, t0g);
                lemma_mint_frame_enc_wf(t0g, t);
                assert(burn_tokens_success(t0g, t, target@, params.amount));
            }
            match store_mint(slot, &t) {
                Err(e) => {
                    proof {
                        assert(false);
                    }
                    Err(e)
                },
                Ok(()) => {
                    proof {
                        assert(slot_holds_mint(slot@, t, old(slot)@.len() as int));
                    }
                    Ok(())
                },
            }
        },
    }
}

} // verus!
