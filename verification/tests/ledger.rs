//! End-to-end checks of the event and token ledgers on concrete values.

use prediction_market::events::{claim_winnings, close_event, create_event, place_bet, resolve_event};
use prediction_market::mint::{
    balance_of, burn_tokens, mint_tokens, InitializeMintInput, MintStatus, TokenMintDetails,
};
use prediction_market::types::{
    BetType, EventStatus, PredictionMarketError, Predictions, Pubkey,
};

fn key(tag: u8) -> Pubkey {
    let mut k = [0u8; 32];
    k[0] = tag;
    k
}

fn id(tag: u8) -> [u8; 32] {
    let mut k = [0u8; 32];
    k[31] = tag;
    k
}

fn empty_predictions() -> Predictions {
    Predictions { total_predictions: 0, predictions: Vec::new() }
}

fn fresh_mint(supply: u64) -> TokenMintDetails {
    TokenMintDetails::new(
        InitializeMintInput::new(key(9), supply, b"TKN".to_vec(), 6),
        MintStatus::Ongoing,
        Vec::new(),
    )
}

#[test]
fn create_event_appends_active_event() {
    let mut p = empty_predictions();
    let r = create_event(&mut p, &key(1), true, &id(1), 1000, 3);
    assert_eq!(r, Ok(()));
    assert_eq!(p.total_predictions, 1);
    assert_eq!(p.predictions.len(), 1);
    let e = &p.predictions[0];
    assert_eq!(e.unique_id, id(1));
    assert_eq!(e.creator, key(1));
    assert_eq!(e.expiry_timestamp, 1000);
    assert_eq!(e.total_pool_amount, 0);
    assert_eq!(e.status, EventStatus::Active);
    assert!(e.winning_outcome.is_none());
    assert_eq!(e.outcomes.len(), 3);
    for (i, o) in e.outcomes.iter().enumerate() {
        assert_eq!(o.id as usize, i);
        assert_eq!(o.total_amount, 0);
        assert!(o.bets.is_empty());
    }
}

#[test]
fn create_event_requires_signer() {
    let mut p = empty_predictions();
    let r = create_event(&mut p, &key(1), false, &id(1), 1000, 2);
    assert_eq!(r, Err(PredictionMarketError::Unauthorized));
    assert_eq!(p.predictions.len(), 0);
}

#[test]
fn create_event_duplicate_id_rejected() {
    let mut p = empty_predictions();
    assert_eq!(create_event(&mut p, &key(1), true, &id(1), 1000, 2), Ok(()));
    let r = create_event(&mut p, &key(2), true, &id(1), 2000, 4);
    assert_eq!(r, Err(PredictionMarketError::DuplicateEvent));
    assert_eq!(p.predictions.len(), 1);
}

#[test]
fn close_event_checks() {
    let mut p = empty_predictions();
    assert_eq!(create_event(&mut p, &key(1), true, &id(1), 1000, 2), Ok(()));
    assert_eq!(
        close_event(&mut p, &id(2), &key(1)),
        Err(PredictionMarketError::EventNotFound)
    );
    assert_eq!(
        close_event(&mut p, &id(1), &key(2)),
        Err(PredictionMarketError::Unauthorized)
    );
    assert_eq!(close_event(&mut p, &id(1), &key(1)), Ok(()));
    assert_eq!(p.predictions[0].status, EventStatus::Closed);
    // a terminal event cannot be closed again
    assert_eq!(
        close_event(&mut p, &id(1), &key(1)),
        Err(PredictionMarketError::EventNotActive)
    );
}

#[test]
fn place_bet_on_closed_event_fails() {
    let mut p = empty_predictions();
    let mut t = fresh_mint(1000);
    assert_eq!(mint_tokens(&mut t, &key(5), 100), Ok(()));
    assert_eq!(create_event(&mut p, &key(1), true, &id(1), 1000, 2), Ok(()));
    assert_eq!(close_event(&mut p, &id(1), &key(1)), Ok(()));
    let r = place_bet(&mut p, &mut t, &id(1), 0, 10, &key(5), BetType::BUY, 7);
    assert_eq!(r, Err(PredictionMarketError::EventNotActive));
    assert_eq!(balance_of(&t, &key(5)), 100);
}

#[test]
fn place_bet_buy_moves_stake_from_balance_to_pool() {
    let mut p = empty_predictions();
    let mut t = fresh_mint(1000);
    assert_eq!(mint_tokens(&mut t, &key(5), 100), Ok(()));
    assert_eq!(create_event(&mut p, &key(1), true, &id(1), 1000, 2), Ok(()));
    assert_eq!(
        place_bet(&mut p, &mut t, &id(1), 0, 30, &key(5), BetType::BUY, 7),
        Ok(())
    );
    assert_eq!(balance_of(&t, &key(5)), 70);
    assert_eq!(p.predictions[0].total_pool_amount, 30);
    assert_eq!(p.predictions[0].outcomes[0].total_amount, 30);
    assert_eq!(p.predictions[0].outcomes[1].total_amount, 0);
    let entry = &p.predictions[0].outcomes[0].bets[0];
    assert_eq!(entry.user, key(5));
    assert_eq!(entry.bets.len(), 1);
    assert_eq!(entry.bets[0].amount, 30);
    assert_eq!(entry.bets[0].bet_type, BetType::BUY);
    assert_eq!(entry.bets[0].timestamp, 7);
    assert!(!entry.bets[0].claimed);
}

#[test]
fn place_bet_error_cases() {
    let mut p = empty_predictions();
    let mut t = fresh_mint(1000);
    assert_eq!(mint_tokens(&mut t, &key(5), 50), Ok(()));
    assert_eq!(create_event(&mut p, &key(1), true, &id(1), 1000, 2), Ok(()));
    assert_eq!(
        place_bet(&mut p, &mut t, &id(9), 0, 10, &key(5), BetType::BUY, 7),
        Err(PredictionMarketError::EventNotFound)
    );
    assert_eq!(
        place_bet(&mut p, &mut t, &id(1), 2, 10, &key(5), BetType::BUY, 7),
        Err(PredictionMarketError::InvalidOutcome)
    );
    assert_eq!(
        place_bet(&mut p, &mut t, &id(1), 0, 60, &key(5), BetType::BUY, 7),
        Err(PredictionMarketError::InsufficientFunds)
    );
    // a sell that would drive the outcome negative
    assert_eq!(
        place_bet(&mut p, &mut t, &id(1), 0, 1, &key(5), BetType::SELL, 7),
        Err(PredictionMarketError::InvalidOutcome)
    );
}

#[test]
fn place_bet_sell_returns_stake() {
    let mut p = empty_predictions();
    let mut t = fresh_mint(1000);
    assert_eq!(mint_tokens(&mut t, &key(5), 100), Ok(()));
    assert_eq!(create_event(&mut p, &key(1), true, &id(1), 1000, 2), Ok(()));
    assert_eq!(
        place_bet(&mut p, &mut t, &id(1), 0, 30, &key(5), BetType::BUY, 7),
        Ok(())
    );
    assert_eq!(
        place_bet(&mut p, &mut t, &id(1), 0, 12, &key(5), BetType::SELL, 8),
        Ok(())
    );
    assert_eq!(balance_of(&t, &key(5)), 82);
    assert_eq!(p.predictions[0].total_pool_amount, 18);
    assert_eq!(p.predictions[0].outcomes[0].total_amount, 18);
    let entry = &p.predictions[0].outcomes[0].bets[0];
    assert_eq!(entry.bets.len(), 2);
    assert_eq!(entry.bets[1].bet_type, BetType::SELL);
}

#[test]
fn pool_equals_sum_of_outcome_totals() {
    let mut p = empty_predictions();
    let mut t = fresh_mint(10_000);
    for u in 1..4u8 {
        assert_eq!(mint_tokens(&mut t, &key(u), 500), Ok(()));
    }
    assert_eq!(create_event(&mut p, &key(9), true, &id(1), 1000, 3), Ok(()));
    assert_eq!(place_bet(&mut p, &mut t, &id(1), 0, 100, &key(1), BetType::BUY, 1), Ok(()));
    assert_eq!(place_bet(&mut p, &mut t, &id(1), 1, 250, &key(2), BetType::BUY, 2), Ok(()));
    assert_eq!(place_bet(&mut p, &mut t, &id(1), 2, 40, &key(3), BetType::BUY, 3), Ok(()));
    assert_eq!(place_bet(&mut p, &mut t, &id(1), 1, 50, &key(2), BetType::SELL, 4), Ok(()));
    let e = &p.predictions[0];
    let sum: u64 = e.outcomes.iter().map(|o| o.total_amount).sum();
    assert_eq!(e.total_pool_amount, sum);
    assert_eq!(e.total_pool_amount, 340);
}

#[test]
fn resolve_event_twice_fails() {
    let mut p = empty_predictions();
    assert_eq!(create_event(&mut p, &key(1), true, &id(1), 1000, 2), Ok(()));
    assert_eq!(
        resolve_event(&mut p, &id(9), 0, &key(1)),
        Err(PredictionMarketError::EventNotFound)
    );
    assert_eq!(
        resolve_event(&mut p, &id(1), 0, &key(2)),
        Err(PredictionMarketError::Unauthorized)
    );
    assert_eq!(
        resolve_event(&mut p, &id(1), 5, &key(1)),
        Err(PredictionMarketError::InvalidOutcome)
    );
    assert_eq!(resolve_event(&mut p, &id(1), 0, &key(1)), Ok(()));
    assert_eq!(p.predictions[0].status, EventStatus::Resolved);
    assert_eq!(p.predictions[0].winning_outcome, Some(0));
    let second = resolve_event(&mut p, &id(1), 1, &key(1));
    assert_eq!(second, Err(PredictionMarketError::EventAlreadyResolved));
    assert_eq!(p.predictions[0].winning_outcome, Some(0));
}

#[test]
fn claim_on_unresolved_event_fails() {
    let mut p = empty_predictions();
    let mut t = fresh_mint(1000);
    assert_eq!(create_event(&mut p, &key(1), true, &id(1), 1000, 2), Ok(()));
    assert_eq!(
        claim_winnings(&mut p, &mut t, &id(1), &key(5)),
        Err(PredictionMarketError::EventNotResolved)
    );
    assert_eq!(
        claim_winnings(&mut p, &mut t, &id(9), &key(5)),
        Err(PredictionMarketError::EventNotFound)
    );
}

#[test]
fn payout_example_and_double_claim_guard() {
    // outcome stakes {A: 30, B: 70}, pool 100, winning outcome A; a bettor
    // holding 10 of the 30 winning stake claims floor(10 * 100 / 30) = 33; a
    // second claim by the same bettor yields 0.
    let mut p = empty_predictions();
    let mut t = fresh_mint(10_000);
    assert_eq!(mint_tokens(&mut t, &key(1), 10), Ok(()));
    assert_eq!(mint_tokens(&mut t, &key(2), 20), Ok(()));
    assert_eq!(mint_tokens(&mut t, &key(3), 70), Ok(()));
    assert_eq!(create_event(&mut p, &key(9), true, &id(1), 1000, 2), Ok(()));
    assert_eq!(place_bet(&mut p, &mut t, &id(1), 0, 10, &key(1), BetType::BUY, 1), Ok(()));
    assert_eq!(place_bet(&mut p, &mut t, &id(1), 0, 20, &key(2), BetType::BUY, 2), Ok(()));
    assert_eq!(place_bet(&mut p, &mut t, &id(1), 1, 70, &key(3), BetType::BUY, 3), Ok(()));
    assert_eq!(p.predictions[0].total_pool_amount, 100);
    assert_eq!(p.predictions[0].outcomes[0].total_amount, 30);
    assert_eq!(p.predictions[0].outcomes[1].total_amount, 70);
    assert_eq!(resolve_event(&mut p, &id(1), 0, &key(9)), Ok(()));
    assert_eq!(claim_winnings(&mut p, &mut t, &id(1), &key(1)), Ok(33));
    assert_eq!(balance_of(&t, &key(1)), 33);
    // the paid bet is marked claimed, so a repeat claim yields 0
    assert_eq!(claim_winnings(&mut p, &mut t, &id(1), &key(1)), Ok(0));
    assert_eq!(balance_of(&t, &key(1)), 33);
    // a bettor with no winning stake gets nothing
    assert_eq!(claim_winnings(&mut p, &mut t, &id(1), &key(3)), Ok(0));
    assert_eq!(balance_of(&t, &key(3)), 0);
}

#[test]
fn claim_nets_own_sells_and_never_overdraws_pool() {
    // the claimant buys 30 and sells 20 back; another bettor buys 10.  The
    // winning outcome holds 20 and the pool holds 20.  The claimant's
    // effective stake is its net position 30 - 20 = 10, so the two holders
    // split the pool exactly: 10 each, never more than the pool in total.
    let mut p = empty_predictions();
    let mut t = fresh_mint(10_000);
    assert_eq!(mint_tokens(&mut t, &key(1), 100), Ok(()));
    assert_eq!(mint_tokens(&mut t, &key(2), 100), Ok(()));
    assert_eq!(create_event(&mut p, &key(9), true, &id(1), 5, 1), Ok(()));
    assert_eq!(place_bet(&mut p, &mut t, &id(1), 0, 30, &key(1), BetType::BUY, 1), Ok(()));
    assert_eq!(place_bet(&mut p, &mut t, &id(1), 0, 20, &key(1), BetType::SELL, 2), Ok(()));
    assert_eq!(place_bet(&mut p, &mut t, &id(1), 0, 10, &key(2), BetType::BUY, 3), Ok(()));
    assert_eq!(p.predictions[0].total_pool_amount, 20);
    assert_eq!(p.predictions[0].outcomes[0].total_amount, 20);
    assert_eq!(resolve_event(&mut p, &id(1), 0, &key(9)), Ok(()));
    let first = claim_winnings(&mut p, &mut t, &id(1), &key(1)).unwrap();
    let second = claim_winnings(&mut p, &mut t, &id(1), &key(2)).unwrap();
    assert_eq!(first, 10);
    assert_eq!(second, 10);
    assert!(first + second <= 20);
    // and once settled, the claimant is owed nothing further
    assert_eq!(claim_winnings(&mut p, &mut t, &id(1), &key(1)), Ok(0));
}

#[test]
fn claim_capped_at_winning_total_cannot_exceed_pool() {
    // a third party sells against the winning outcome without holding it,
    // shrinking the outcome's total below the claimant's gross stake; the
    // claim is capped at the remaining total, so the payout stays within
    // the pool.
    let mut p = empty_predictions();
    let mut t = fresh_mint(10_000);
    assert_eq!(mint_tokens(&mut t, &key(1), 100), Ok(()));
    assert_eq!(create_event(&mut p, &key(9), true, &id(1), 5, 1), Ok(()));
    assert_eq!(place_bet(&mut p, &mut t, &id(1), 0, 30, &key(1), BetType::BUY, 1), Ok(()));
    // bettor 2 sells 20 it never bought
    assert_eq!(place_bet(&mut p, &mut t, &id(1), 0, 20, &key(2), BetType::SELL, 2), Ok(()));
    assert_eq!(p.predictions[0].total_pool_amount, 10);
    assert_eq!(p.predictions[0].outcomes[0].total_amount, 10);
    assert_eq!(resolve_event(&mut p, &id(1), 0, &key(9)), Ok(()));
    // gross stake 30, but only 10 remains at the outcome: payout 10, not 30
    assert_eq!(claim_winnings(&mut p, &mut t, &id(1), &key(1)), Ok(10));
    assert_eq!(balance_of(&t, &key(1)), 80);
}

#[test]
fn mint_tokens_respects_supply_cap() {
    let mut t = fresh_mint(100);
    assert_eq!(mint_tokens(&mut t, &key(1), 60), Ok(()));
    assert_eq!(t.circulating_supply, 60);
    assert_eq!(
        mint_tokens(&mut t, &key(2), 41),
        Err(PredictionMarketError::SupplyExceeded)
    );
    assert_eq!(t.circulating_supply, 60);
    assert_eq!(balance_of(&t, &key(2)), 0);
    assert_eq!(mint_tokens(&mut t, &key(2), 40), Ok(()));
    assert_eq!(t.circulating_supply, 100);
}

#[test]
fn burn_tokens_never_overdraws() {
    let mut t = fresh_mint(1000);
    assert_eq!(mint_tokens(&mut t, &key(1), 50), Ok(()));
    assert_eq!(
        burn_tokens(&mut t, &key(1), 51),
        Err(PredictionMarketError::InsufficientFunds)
    );
    assert_eq!(balance_of(&t, &key(1)), 50);
    assert_eq!(
        burn_tokens(&mut t, &key(2), 1),
        Err(PredictionMarketError::InsufficientFunds)
    );
    assert_eq!(burn_tokens(&mut t, &key(1), 50), Ok(()));
    assert_eq!(balance_of(&t, &key(1)), 0);
    assert_eq!(burn_tokens(&mut t, &key(1), 0), Ok(()));
    assert_eq!(balance_of(&t, &key(1)), 0);
}
